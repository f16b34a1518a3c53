//! Network capabilities: per-package connect and bind rules over address
//! ranges, domain patterns and ports, with a cache of the domains that
//! recent DNS resolutions gave for an address.

use vstd::prelude::*;
use vstd::hash_map::StringHashMap;
use dashmap::DashMap;
use crate::ip::{
    any_v4_net, host_net, host_network, ip_net_contains, ip_net_parse, ip_width, net_contains,
    net_of, parse_ip_net, IpNetValue, IpValue,
};
use crate::policy::{
    lemma_package_map_insert, package_map, root_name, root_package, strings_view, PackagePolicy,
};
use crate::ports::{port_in, port_ranges, PortPattern};
use crate::text::{
    join_spec, lemma_split_join,
    chars_contains, chars_ends_with, chars_eq, chars_slice, chars_starts_with, from_chars,
    has_prefix, has_suffix, seqs_of, split_chars, split_spec, to_chars,
};

verus! {

/// What a socket does with an address.
#[derive(Debug, Clone, Copy, PartialEq, Eq, Structural)]
pub enum NetAction {
    Connect,
    Bind,
}

/// The transport protocol of a socket, or of a rule (`Any` matches both).
#[derive(Debug, Clone, Copy, PartialEq, Eq, Structural)]
pub enum NetProtocol {
    Any,
    Tcp,
    Udp,
}

/// What a rule's host part designates.
#[verifier::ext_equal]
pub enum TargetView {
    /// An address range.
    Ip(IpNetValue),
    /// A domain pattern: `*`, `*.suffix` or an exact name.
    Domain(Seq<char>),
}

/// The meaning of one network rule.
#[verifier::ext_equal]
pub struct RuleView {
    pub action: NetAction,
    pub protocol: NetProtocol,
    pub target: TargetView,
    pub ports: Seq<(u16, u16)>,
}

enum NetTarget {
    Ip(IpNetValue),
    Domain(String),
}

struct NetRule {
    action: NetAction,
    protocol: NetProtocol,
    target: NetTarget,
    port_pattern: PortPattern,
}

/// The DNS cache: for an address text, the (domain, package, expiry) of each
/// resolution that gave it.
pub type DnsCache = DashMap<String, Vec<(String, String, u64)>>;

#[verifier::external_type_specification]
#[verifier::external_body]
#[verifier::reject_recursive_types(K)]
#[verifier::reject_recursive_types(V)]
#[verifier::reject_recursive_types(S)]
pub struct ExDashMap<K, V, S>(DashMap<K, V, S>);

/// What a DNS cache holds: for each key, its list of entries.
pub uninterp spec fn dns_entries(m: DashMap<String, Vec<(String, String, u64)>>) -> Map<
    Seq<char>,
    Seq<(Seq<char>, Seq<char>, u64)>,
>;

/// The plain values of a list of cache entries.
pub open spec fn entries_view(v: Seq<(String, String, u64)>) -> Seq<(Seq<char>, Seq<char>, u64)> {
    v.map_values(|e: (String, String, u64)| (e.0@, e.1@, e.2))
}

/// An empty map (`DashMap::new`). The contract claims it holds no key.
#[verifier::external_body]
fn dns_cache_new() -> (cache: DnsCache)
    ensures
        dns_entries(cache).is_empty(),
{
    DashMap::new()
}

/// A copy of the entries under `key` (`DashMap::get`). The contract claims
/// the result is `None` exactly when the key is absent, and otherwise the
/// entries stored under it.
#[verifier::external_body]
fn dns_cache_get(m: &DnsCache, key: &str) -> (r: Option<Vec<(String, String, u64)>>)
    ensures
        match r {
            Some(v) => dns_entries(*m).contains_key(key@) && entries_view(v@) == dns_entries(
                *m,
            )[key@],
            None => !dns_entries(*m).contains_key(key@),
        },
{
    m.get(key).map(|e| e.value().clone())
}

/// Stores `value` under `key`, replacing what was there (`DashMap::insert`).
/// The contract claims that only that key changes.
#[verifier::external_body]
fn dns_cache_insert(m: &mut DnsCache, key: String, value: Vec<(String, String, u64)>)
    ensures
        dns_entries(*final(m)) == dns_entries(*old(m)).insert(key@, entries_view(value@)),
{
    m.insert(key, value);
}

/// The action a socket call code stands for: `1` binds, anything else connects.
pub open spec fn action_of_code(code: i32) -> NetAction {
    if code == 1 {
        NetAction::Bind
    } else {
        NetAction::Connect
    }
}

/// The protocol a code stands for: `6` is TCP, `17` UDP, anything else any.
pub open spec fn protocol_of_code(code: i32) -> NetProtocol {
    if code == 6 {
        NetProtocol::Tcp
    } else if code == 17 {
        NetProtocol::Udp
    } else {
        NetProtocol::Any
    }
}

/// The action a rule names: `bind` or `connect`.
pub open spec fn action_named(a: Seq<char>) -> Option<NetAction> {
    if a == "bind"@ {
        Some(NetAction::Bind)
    } else if a == "connect"@ {
        Some(NetAction::Connect)
    } else {
        None
    }
}

/// The protocol a rule names: `tcp`, `udp`, or `*` / `any` for both.
pub open spec fn protocol_named(p: Seq<char>) -> Option<NetProtocol> {
    if p == "tcp"@ {
        Some(NetProtocol::Tcp)
    } else if p == "udp"@ {
        Some(NetProtocol::Udp)
    } else if p == seq!['*'] || p == "any"@ {
        Some(NetProtocol::Any)
    } else {
        None
    }
}

/// The action, protocol, host and port parts of a rule text: four
/// `:`-separated parts as written, or the shorthand `allow:host:port` for
/// connecting over any protocol.
pub open spec fn rule_fields(rule: Seq<char>) -> Option<
    (Seq<char>, Seq<char>, Seq<char>, Seq<char>),
> {
    let parts = split_spec(rule, ':');
    if parts.len() == 4 {
        Some((parts[0], parts[1], parts[2], parts[3]))
    } else if parts.len() == 3 && parts[0] == "allow"@ {
        Some(("connect"@, seq!['*'], parts[1], parts[2]))
    } else {
        None
    }
}

/// The address of the first entry for `host` in a list of host addresses.
pub open spec fn host_address(addrs: Seq<(Seq<char>, IpValue)>, host: Seq<char>) -> Option<IpValue>
    decreases addrs.len(),
{
    if addrs.len() == 0 {
        None
    } else if addrs[0].0 == host {
        Some(addrs[0].1)
    } else {
        host_address(addrs.drop_first(), host)
    }
}

/// What a rule's host part designates: every IPv4 address for `*`, the
/// network for `address/prefix`, the single address for a host that is an
/// address, and otherwise a domain pattern.
pub open spec fn target_of(host: Seq<char>, addrs: Seq<(Seq<char>, IpValue)>) -> TargetView {
    if host == seq!['*'] {
        TargetView::Ip(any_v4_net())
    } else {
        match ip_net_parse(host) {
            Some(p) => TargetView::Ip(net_of(p)),
            None => match host_address(addrs, host) {
                Some(a) => TargetView::Ip(host_net(a)),
                None => TargetView::Domain(host),
            },
        }
    }
}

/// The meaning of a rule text, or `None` when it is malformed (and ignored).
pub open spec fn parse_rule_spec(rule: Seq<char>, addrs: Seq<(Seq<char>, IpValue)>) -> Option<
    RuleView,
> {
    match rule_fields(rule) {
        None => None,
        Some(f) => match (action_named(f.0), protocol_named(f.1)) {
            (Some(a), Some(p)) => Some(
                RuleView { action: a, protocol: p, target: target_of(f.2, addrs), ports: port_ranges(f.3) },
            ),
            _ => None,
        },
    }
}

/// The meanings of the well-formed rules of a list, in order.
pub open spec fn parse_rules_spec(
    texts: Seq<Seq<char>>,
    addrs: Seq<(Seq<char>, IpValue)>,
) -> Seq<RuleView>
    decreases texts.len(),
{
    if texts.len() == 0 {
        Seq::empty()
    } else {
        let prev = parse_rules_spec(texts.drop_last(), addrs);
        match parse_rule_spec(texts.last(), addrs) {
            Some(r) => prev.push(r),
            None => prev,
        }
    }
}

/// The network rules of each package of a manifest.
pub open spec fn net_rules_of(
    entries: Seq<(String, PackagePolicy)>,
    addrs: Seq<(Seq<char>, IpValue)>,
) -> Map<Seq<char>, Seq<RuleView>> {
    package_map(entries).map_values(
        |p: PackagePolicy| parse_rules_spec(strings_view(p.network@), addrs),
    )
}

/// The plain values of a list of host addresses.
pub open spec fn addrs_view(v: Seq<(String, IpValue)>) -> Seq<(Seq<char>, IpValue)> {
    v.map_values(|e: (String, IpValue)| (e.0@, e.1))
}

/// A rule applies to a request with its action, a compatible protocol (the
/// same, or `Any` on either side) and a port in its ranges.
pub open spec fn rule_applies(r: RuleView, action: NetAction, protocol: NetProtocol, port: u16) -> bool {
    &&& r.action == action
    &&& (r.protocol == NetProtocol::Any || protocol == NetProtocol::Any || r.protocol == protocol)
    &&& port_in(r.ports, port)
}

/// A domain pattern matches a name when it is `*`, when it is `*.suffix`
/// and the name ends with `.suffix`, or when the two are equal.
pub open spec fn domain_matches(pattern: Seq<char>, domain: Seq<char>) -> bool {
    if pattern == seq!['*'] {
        true
    } else if has_prefix(pattern, seq!['*', '.']) {
        has_suffix(domain, pattern.skip(1))
    } else {
        pattern == domain
    }
}

/// A rule's target matches a requested host: an address range when the host
/// is an address in it (the range `0.0.0.0/0` admitting every address), a
/// domain pattern when it matches the host text.
pub open spec fn target_matches(t: TargetView, host: Seq<char>, addr: Option<IpValue>) -> bool {
    match t {
        TargetView::Ip(n) => match addr {
            Some(a) => net_contains(n, a) || n == any_v4_net(),
            None => false,
        },
        TargetView::Domain(d) => domain_matches(d, host),
    }
}

/// Some rule applies to the request and its target matches the host.
pub open spec fn rules_allow(
    rs: Seq<RuleView>,
    host: Seq<char>,
    addr: Option<IpValue>,
    action: NetAction,
    protocol: NetProtocol,
    port: u16,
) -> bool {
    exists|i: int|
        0 <= i < rs.len() && rule_applies(#[trigger] rs[i], action, protocol, port)
            && target_matches(rs[i].target, host, addr)
}

/// Some rule applies to the request and has a domain pattern that matches
/// `domain`.
pub open spec fn rules_allow_domain(
    rs: Seq<RuleView>,
    domain: Seq<char>,
    action: NetAction,
    protocol: NetProtocol,
    port: u16,
) -> bool {
    exists|i: int|
        0 <= i < rs.len() && rule_applies(#[trigger] rs[i], action, protocol, port) && match rs[i].target {
            TargetView::Domain(d) => domain_matches(d, domain),
            TargetView::Ip(_) => false,
        }
}

/// A cache entry vouches for the request when it has not expired, was made
/// for the same package, and its domain is allowed by an applicable rule.
pub open spec fn entry_allows(
    rs: Seq<RuleView>,
    e: (Seq<char>, Seq<char>, u64),
    package: Seq<char>,
    action: NetAction,
    protocol: NetProtocol,
    port: u16,
    now: u64,
) -> bool {
    e.2 > now && e.1 == package && rules_allow_domain(rs, e.0, action, protocol, port)
}

/// Some cache entry under `key` vouches for the request.
pub open spec fn cache_allows(
    rs: Seq<RuleView>,
    dns: Map<Seq<char>, Seq<(Seq<char>, Seq<char>, u64)>>,
    key: Seq<char>,
    package: Seq<char>,
    action: NetAction,
    protocol: NetProtocol,
    port: u16,
    now: u64,
) -> bool {
    dns.contains_key(key) && exists|j: int|
        0 <= j < dns[key].len() && entry_allows(
            rs,
            #[trigger] dns[key][j],
            package,
            action,
            protocol,
            port,
            now,
        )
}

/// The exact domains (no `*`) of the applicable rules, in rule order: those
/// a fresh resolution may confirm.
pub open spec fn candidate_domains(
    rs: Seq<RuleView>,
    action: NetAction,
    protocol: NetProtocol,
    port: u16,
) -> Seq<Seq<char>>
    decreases rs.len(),
{
    if rs.len() == 0 {
        Seq::empty()
    } else {
        let prev = candidate_domains(rs.drop_last(), action, protocol, port);
        let r = rs.last();
        if rule_applies(r, action, protocol, port) {
            match r.target {
                TargetView::Domain(d) => if !d.contains('*') {
                    prev.push(d)
                } else {
                    prev
                },
                TargetView::Ip(_) => prev,
            }
        } else {
            prev
        }
    }
}

/// The outcome of checking a network request.
pub enum NetVerdict {
    Allowed,
    Denied,
    /// The request is allowed only if resolving one of `domains` (in order)
    /// gives `addr`; `ip_key` is the address's text.
    Unresolved { addr: IpValue, ip_key: String, domains: Vec<String> },
}

/// The plain meaning of a verdict.
pub enum VerdictView {
    Allowed,
    Denied,
    Unresolved(IpValue, Seq<char>, Seq<Seq<char>>),
}

/// The plain meaning of a verdict.
pub open spec fn verdict_view(v: NetVerdict) -> VerdictView {
    match v {
        NetVerdict::Allowed => VerdictView::Allowed,
        NetVerdict::Denied => VerdictView::Denied,
        NetVerdict::Unresolved { addr, ip_key, domains } => VerdictView::Unresolved(
            addr,
            ip_key@,
            strings_view(domains@),
        ),
    }
}

/// The verdict on a request from `package` to `host` (whose address and
/// address text, when the host is an address, are `addr`):
/// - a package without rules is allowed only if it is the root package;
/// - an applicable rule whose target matches the host allows it;
/// - for an address, an unexpired cache entry for the same package whose
///   domain an applicable rule allows, allows it;
/// - for an address, the applicable exact domains are left to a fresh
///   resolution;
/// - otherwise it is denied.
pub open spec fn net_verdict(
    rules: Map<Seq<char>, Seq<RuleView>>,
    dns: Map<Seq<char>, Seq<(Seq<char>, Seq<char>, u64)>>,
    package: Seq<char>,
    host: Seq<char>,
    addr: Option<(IpValue, Seq<char>)>,
    port: u16,
    action_code: i32,
    protocol_code: i32,
    now: u64,
) -> VerdictView {
    let action = action_of_code(action_code);
    let protocol = protocol_of_code(protocol_code);
    if !rules.contains_key(package) {
        if package == root_package() {
            VerdictView::Allowed
        } else {
            VerdictView::Denied
        }
    } else {
        let rs = rules[package];
        let a = match addr {
            Some(p) => Some(p.0),
            None => None,
        };
        if rules_allow(rs, host, a, action, protocol, port) {
            VerdictView::Allowed
        } else {
            match addr {
                None => VerdictView::Denied,
                Some(p) => if cache_allows(rs, dns, p.1, package, action, protocol, port, now) {
                    VerdictView::Allowed
                } else {
                    let c = candidate_domains(rs, action, protocol, port);
                    if c.len() == 0 {
                        VerdictView::Denied
                    } else {
                        VerdictView::Unresolved(p.0, p.1, c)
                    }
                },
            }
        }
    }
}

/// The expiry of a cache entry made at `now` (in milliseconds) for a
/// resolution with time-to-live `ttl` seconds, clamped to 5..=3600 seconds.
pub open spec fn dns_expiry(ttl: u32, now: u64) -> int {
    let secs = if ttl < 5 {
        5
    } else if ttl > 3600 {
        3600
    } else {
        ttl as int
    };
    now + secs * 1000
}

/// The cache after appending `entry` under each of `keys`, in order.
pub open spec fn dns_after(
    dns: Map<Seq<char>, Seq<(Seq<char>, Seq<char>, u64)>>,
    keys: Seq<Seq<char>>,
    entry: (Seq<char>, Seq<char>, u64),
) -> Map<Seq<char>, Seq<(Seq<char>, Seq<char>, u64)>>
    decreases keys.len(),
{
    if keys.len() == 0 {
        dns
    } else {
        let m = dns_after(dns, keys.drop_last(), entry);
        let k = keys.last();
        let old_entries = if m.contains_key(k) {
            m[k]
        } else {
            Seq::empty()
        };
        m.insert(k, old_entries.push(entry))
    }
}

/// An entry appended under a key is among that key's entries afterwards.
proof fn lemma_dns_after_holds(
    dns: Map<Seq<char>, Seq<(Seq<char>, Seq<char>, u64)>>,
    keys: Seq<Seq<char>>,
    entry: (Seq<char>, Seq<char>, u64),
    key: Seq<char>,
)
    requires
        keys.contains(key),
    ensures
        dns_after(dns, keys, entry).contains_key(key),
        dns_after(dns, keys, entry)[key].contains(entry),
    decreases keys.len(),
{
    let m = dns_after(dns, keys.drop_last(), entry);
    let i = choose|i: int| 0 <= i < keys.len() && keys[i] == key;
    if keys.last() == key {
        let old_entries = if m.contains_key(key) {
            m[key]
        } else {
            Seq::empty()
        };
        assert(old_entries.push(entry)[old_entries.len() as int] == entry);
    } else {
        assert(i < keys.len() - 1);
        assert(keys.drop_last()[i] == key);
        lemma_dns_after_holds(dns, keys.drop_last(), entry, key);
    }
}

/// Law: once a resolution of `domain` for `package` has been registered
/// under an address text (with time-to-live `ttl` at time `now`), a request
/// from that package to that address is allowed until the entry expires,
/// whenever one of the package's rules applicable to the request allows the
/// domain.
pub proof fn registered_resolution_allows(
    rules: Map<Seq<char>, Seq<RuleView>>,
    dns: Map<Seq<char>, Seq<(Seq<char>, Seq<char>, u64)>>,
    keys: Seq<Seq<char>>,
    domain: Seq<char>,
    package: Seq<char>,
    ttl: u32,
    now: u64,
    host: Seq<char>,
    addr: IpValue,
    ip_key: Seq<char>,
    port: u16,
    action_code: i32,
    protocol_code: i32,
    later: u64,
)
    requires
        keys.contains(ip_key),
        rules.contains_key(package),
        rules_allow_domain(
            rules[package],
            domain,
            action_of_code(action_code),
            protocol_of_code(protocol_code),
            port,
        ),
        now <= u64::MAX - 3_600_000,
        later < dns_expiry(ttl, now),
    ensures
        net_verdict(
            rules,
            dns_after(dns, keys, (domain, package, dns_expiry(ttl, now) as u64)),
            package,
            host,
            Some((addr, ip_key)),
            port,
            action_code,
            protocol_code,
            later,
        ) == VerdictView::Allowed,
{
    let entry = (domain, package, dns_expiry(ttl, now) as u64);
    let m = dns_after(dns, keys, entry);
    lemma_dns_after_holds(dns, keys, entry, ip_key);
    let j = choose|j: int| 0 <= j < m[ip_key].len() && m[ip_key][j] == entry;
    let rs = rules[package];
    let action = action_of_code(action_code);
    let protocol = protocol_of_code(protocol_code);
    assert(entry_allows(rs, m[ip_key][j], package, action, protocol, port, later));
    assert(cache_allows(rs, m, ip_key, package, action, protocol, port, later));
}

/// Entries already under a key stay there, in place, when more are appended.
proof fn lemma_dns_after_keeps(
    dns: Map<Seq<char>, Seq<(Seq<char>, Seq<char>, u64)>>,
    keys: Seq<Seq<char>>,
    entry: (Seq<char>, Seq<char>, u64),
    key: Seq<char>,
)
    requires
        dns.contains_key(key),
    ensures
        dns_after(dns, keys, entry).contains_key(key),
        dns_after(dns, keys, entry)[key].len() >= dns[key].len(),
        forall|j: int|
            0 <= j < dns[key].len() ==> #[trigger] dns_after(dns, keys, entry)[key][j] == dns[key][j],
    decreases keys.len(),
{
    if keys.len() > 0 {
        lemma_dns_after_keeps(dns, keys.drop_last(), entry, key);
    }
}

/// Law: registering resolutions only widens access. A request allowed under
/// a cache is still allowed, at the same time, once more entries have been
/// appended to it.
pub proof fn registration_keeps_allowed(
    rules: Map<Seq<char>, Seq<RuleView>>,
    dns: Map<Seq<char>, Seq<(Seq<char>, Seq<char>, u64)>>,
    keys: Seq<Seq<char>>,
    entry: (Seq<char>, Seq<char>, u64),
    package: Seq<char>,
    host: Seq<char>,
    addr: Option<(IpValue, Seq<char>)>,
    port: u16,
    action_code: i32,
    protocol_code: i32,
    now: u64,
)
    ensures
        net_verdict(rules, dns, package, host, addr, port, action_code, protocol_code, now)
            == VerdictView::Allowed ==> net_verdict(
            rules,
            dns_after(dns, keys, entry),
            package,
            host,
            addr,
            port,
            action_code,
            protocol_code,
            now,
        ) == VerdictView::Allowed,
{
    let m = dns_after(dns, keys, entry);
    let action = action_of_code(action_code);
    let protocol = protocol_of_code(protocol_code);
    if rules.contains_key(package) {
        let rs = rules[package];
        match addr {
            Some(p) => {
                if cache_allows(rs, dns, p.1, package, action, protocol, port, now) {
                    lemma_dns_after_keeps(dns, keys, entry, p.1);
                    let j = choose|j: int|
                        0 <= j < dns[p.1].len() && entry_allows(
                            rs,
                            #[trigger] dns[p.1][j],
                            package,
                            action,
                            protocol,
                            port,
                            now,
                        );
                    assert(m[p.1][j] == dns[p.1][j]);
                    assert(cache_allows(rs, m, p.1, package, action, protocol, port, now));
                }
            },
            None => {},
        }
    }
}

/// Law: the rules of appended rule texts come after those of the texts
/// before them; each text contributes its rule or, when malformed, nothing.
pub proof fn parse_rules_concat(a: Seq<Seq<char>>, b: Seq<Seq<char>>, addrs: Seq<(Seq<char>, IpValue)>)
    ensures
        parse_rules_spec(a + b, addrs) == parse_rules_spec(a, addrs) + parse_rules_spec(b, addrs),
    decreases b.len(),
{
    if b.len() == 0 {
        assert(a + b =~= a);
        assert(parse_rules_spec(a, addrs) + parse_rules_spec(b, addrs) =~= parse_rules_spec(a, addrs));
    } else {
        assert((a + b).drop_last() =~= a + b.drop_last());
        assert((a + b).last() == b.last());
        parse_rules_concat(a, b.drop_last(), addrs);
        let pa = parse_rules_spec(a, addrs);
        let pb = parse_rules_spec(b.drop_last(), addrs);
        match parse_rule_spec(b.last(), addrs) {
            Some(r) => assert((pa + pb).push(r) =~= pa + pb.push(r)),
            None => {},
        }
    }
}

/// Law: malformed rule texts are ignored. Appending texts that do not parse
/// as rules leaves the parsed rules exactly as they were.
pub proof fn malformed_rules_are_ignored(
    texts: Seq<Seq<char>>,
    bad: Seq<Seq<char>>,
    addrs: Seq<(Seq<char>, IpValue)>,
)
    requires
        forall|i: int| 0 <= i < bad.len() ==> parse_rule_spec(#[trigger] bad[i], addrs) is None,
    ensures
        parse_rules_spec(texts + bad, addrs) == parse_rules_spec(texts, addrs),
    decreases bad.len(),
{
    if bad.len() == 0 {
        assert(texts + bad =~= texts);
    } else {
        let init = bad.drop_last();
        assert forall|i: int| 0 <= i < init.len() implies parse_rule_spec(#[trigger] init[i], addrs)
            is None by {
            assert(init[i] == bad[i]);
        }
        malformed_rules_are_ignored(texts, init, addrs);
        assert((texts + bad).drop_last() =~= texts + init);
        assert((texts + bad).last() == bad[bad.len() - 1]);
    }
}

/// A literal text of letters and `*` holds no `:`.
proof fn lemma_no_colon(t: Seq<char>)
    requires
        forall|k: int| 0 <= k < t.len() ==> t[k] != ':',
    ensures
        !t.contains(':'),
{
}

/// The fields of a shorthand rule text.
proof fn lemma_allow_fields(host: Seq<char>, ports: Seq<char>)
    requires
        !host.contains(':'),
        !ports.contains(':'),
    ensures
        rule_fields("allow"@ + seq![':'] + host + seq![':'] + ports) == Some(
            ("connect"@, seq!['*'], host, ports),
        ),
{
    reveal_strlit("allow");
    let allow = "allow"@;
    lemma_no_colon(allow);
    let xs = seq![allow, host, ports];
    assert(xs.drop_last() =~= seq![allow, host]);
    assert(seq![allow, host].drop_last() =~= seq![allow]);
    assert(join_spec(seq![allow], ':') == allow);
    assert(join_spec(seq![allow, host], ':') == allow.push(':') + host);
    assert(join_spec(xs, ':') == (allow.push(':') + host).push(':') + ports);
    assert(allow + seq![':'] + host + seq![':'] + ports =~= join_spec(xs, ':'));
    lemma_split_join(xs, ':');
}

/// The fields of a `connect:*` rule text.
pub(crate) proof fn lemma_connect_any_fields(host: Seq<char>, ports: Seq<char>)
    requires
        !host.contains(':'),
        !ports.contains(':'),
    ensures
        rule_fields("connect"@ + seq![':', '*', ':'] + host + seq![':'] + ports) == Some(
            ("connect"@, seq!['*'], host, ports),
        ),
{
    reveal_strlit("connect");
    let connect = "connect"@;
    let star = seq!['*'];
    lemma_no_colon(connect);
    lemma_no_colon(star);
    let ys = seq![connect, star, host, ports];
    assert(ys.drop_last() =~= seq![connect, star, host]);
    assert(seq![connect, star, host].drop_last() =~= seq![connect, star]);
    assert(seq![connect, star].drop_last() =~= seq![connect]);
    assert(join_spec(seq![connect], ':') == connect);
    assert(join_spec(seq![connect, star], ':') == connect.push(':') + star);
    assert(join_spec(seq![connect, star, host], ':') == (connect.push(':') + star).push(':') + host);
    assert(join_spec(ys, ':') == ((connect.push(':') + star).push(':') + host).push(':') + ports);
    assert(connect + seq![':', '*', ':'] + host + seq![':'] + ports =~= join_spec(ys, ':'));
    lemma_split_join(ys, ':');
}

/// Law: the shorthand `allow:host:ports` means the same rule as
/// `connect:*:host:ports`, for a host and ports without `:`.
pub proof fn allow_shorthand_means_connect_any(
    host: Seq<char>,
    ports: Seq<char>,
    addrs: Seq<(Seq<char>, IpValue)>,
)
    requires
        !host.contains(':'),
        !ports.contains(':'),
    ensures
        parse_rule_spec("allow"@ + seq![':'] + host + seq![':'] + ports, addrs) == parse_rule_spec(
            "connect"@ + seq![':', '*', ':'] + host + seq![':'] + ports,
            addrs,
        ),
{
    lemma_allow_fields(host, ports);
    lemma_connect_any_fields(host, ports);
}

/// The exact domains of a rule list are those of its parts, in order.
proof fn lemma_candidates_concat(a: Seq<RuleView>, b: Seq<RuleView>, action: NetAction, protocol: NetProtocol, port: u16)
    ensures
        candidate_domains(a + b, action, protocol, port) == candidate_domains(a, action, protocol, port)
            + candidate_domains(b, action, protocol, port),
    decreases b.len(),
{
    if b.len() == 0 {
        assert(a + b =~= a);
        assert(candidate_domains(a, action, protocol, port) + candidate_domains(b, action, protocol, port)
            =~= candidate_domains(a, action, protocol, port));
    } else {
        assert((a + b).drop_last() =~= a + b.drop_last());
        assert((a + b).last() == b.last());
        lemma_candidates_concat(a, b.drop_last(), action, protocol, port);
        let ca = candidate_domains(a, action, protocol, port);
        let cb = candidate_domains(b.drop_last(), action, protocol, port);
        assert forall|d: Seq<char>| (ca + cb).push(d) =~= ca + cb.push(d) by {}
    }
}

/// Law: adding rules to a package that has rules never revokes access. A
/// request allowed before is allowed after; a request left to a fresh
/// resolution is then allowed, or left to a resolution of the same address
/// over at least the same domains, first in the same order.
pub proof fn added_rules_keep_access(
    rules: Map<Seq<char>, Seq<RuleView>>,
    more: Seq<RuleView>,
    dns: Map<Seq<char>, Seq<(Seq<char>, Seq<char>, u64)>>,
    package: Seq<char>,
    host: Seq<char>,
    addr: Option<(IpValue, Seq<char>)>,
    port: u16,
    action_code: i32,
    protocol_code: i32,
    now: u64,
)
    requires
        rules.contains_key(package),
    ensures
        net_verdict(rules, dns, package, host, addr, port, action_code, protocol_code, now)
            == VerdictView::Allowed ==> net_verdict(
            rules.insert(package, rules[package] + more),
            dns,
            package,
            host,
            addr,
            port,
            action_code,
            protocol_code,
            now,
        ) == VerdictView::Allowed,
        net_verdict(rules, dns, package, host, addr, port, action_code, protocol_code, now) matches VerdictView::Unresolved(
            a,
            k,
            c1,
        ) ==> ({
            let v2 = net_verdict(
                rules.insert(package, rules[package] + more),
                dns,
                package,
                host,
                addr,
                port,
                action_code,
                protocol_code,
                now,
            );
            v2 == VerdictView::Allowed || (v2 matches VerdictView::Unresolved(a2, k2, c2) && a2 == a
                && k2 == k && c1.len() <= c2.len() && c2.subrange(0, c1.len() as int) == c1)
        }),
{
    let rs = rules[package];
    let rs2 = rs + more;
    let rules2 = rules.insert(package, rs2);
    assert(rules2[package] == rs2);
    let action = action_of_code(action_code);
    let protocol = protocol_of_code(protocol_code);
    let a = match addr {
        Some(p) => Some(p.0),
        None => None,
    };
    if rules_allow(rs, host, a, action, protocol, port) {
        let i = choose|i: int|
            0 <= i < rs.len() && rule_applies(#[trigger] rs[i], action, protocol, port)
                && target_matches(rs[i].target, host, a);
        assert(rs2[i] == rs[i]);
        assert(rules_allow(rs2, host, a, action, protocol, port));
    }
    match addr {
        Some(p) => {
            if cache_allows(rs, dns, p.1, package, action, protocol, port, now) {
                let j = choose|j: int|
                    0 <= j < dns[p.1].len() && entry_allows(
                        rs,
                        #[trigger] dns[p.1][j],
                        package,
                        action,
                        protocol,
                        port,
                        now,
                    );
                let e = dns[p.1][j];
                let i = choose|i: int|
                    0 <= i < rs.len() && rule_applies(#[trigger] rs[i], action, protocol, port)
                        && match rs[i].target {
                        TargetView::Domain(d) => domain_matches(d, e.0),
                        TargetView::Ip(_) => false,
                    };
                assert(rs2[i] == rs[i]);
                assert(rules_allow_domain(rs2, e.0, action, protocol, port));
                assert(entry_allows(rs2, dns[p.1][j], package, action, protocol, port, now));
                assert(cache_allows(rs2, dns, p.1, package, action, protocol, port, now));
            }
            lemma_candidates_concat(rs, more, action, protocol, port);
            let c1 = candidate_domains(rs, action, protocol, port);
            let c2 = candidate_domains(rs2, action, protocol, port);
            assert(c2.subrange(0, c1.len() as int) =~= c1);
        },
        None => {},
    }
}

/// Law: a cache entry made for another package, or past its expiry, never
/// grants access. When every entry under the address's text is such an
/// entry, the verdict is what it would be with nothing cached for it.
pub proof fn foreign_or_expired_entries_grant_nothing(
    rules: Map<Seq<char>, Seq<RuleView>>,
    dns: Map<Seq<char>, Seq<(Seq<char>, Seq<char>, u64)>>,
    package: Seq<char>,
    host: Seq<char>,
    addr: (IpValue, Seq<char>),
    port: u16,
    action_code: i32,
    protocol_code: i32,
    now: u64,
)
    requires
        dns.contains_key(addr.1) ==> forall|j: int|
            0 <= j < dns[addr.1].len() ==> (#[trigger] dns[addr.1][j]).1 != package || dns[addr.1][j].2
                <= now,
    ensures
        net_verdict(rules, dns, package, host, Some(addr), port, action_code, protocol_code, now)
            == net_verdict(
            rules,
            dns.remove(addr.1),
            package,
            host,
            Some(addr),
            port,
            action_code,
            protocol_code,
            now,
        ),
{
    if rules.contains_key(package) {
        let rs = rules[package];
        let action = action_of_code(action_code);
        let protocol = protocol_of_code(protocol_code);
        assert(!cache_allows(rs, dns, addr.1, package, action, protocol, port, now));
        assert(!cache_allows(rs, dns.remove(addr.1), addr.1, package, action, protocol, port, now));
    }
}

/// Law: a package with rules, `root` included, gets exactly what its rules
/// give. A request is allowed only when one of the package's rules applies to
/// its action, protocol and port and its target matches the host, or when the
/// host is an address and an unexpired cache entry made for that package
/// names a domain that an applicable domain rule matches; and a matching rule
/// always allows. Being named `root` grants nothing when `root` has rules.
pub proof fn package_with_rules_gets_only_its_rules(
    rules: Map<Seq<char>, Seq<RuleView>>,
    dns: Map<Seq<char>, Seq<(Seq<char>, Seq<char>, u64)>>,
    package: Seq<char>,
    host: Seq<char>,
    addr: Option<(IpValue, Seq<char>)>,
    port: u16,
    action_code: i32,
    protocol_code: i32,
    now: u64,
)
    requires
        rules.contains_key(package),
    ensures
        net_verdict(rules, dns, package, host, addr, port, action_code, protocol_code, now)
            == VerdictView::Allowed <==> ({
            let rs = rules[package];
            let action = if action_code == 1 {
                NetAction::Bind
            } else {
                NetAction::Connect
            };
            let protocol = if protocol_code == 6 {
                NetProtocol::Tcp
            } else if protocol_code == 17 {
                NetProtocol::Udp
            } else {
                NetProtocol::Any
            };
            ||| exists|i: int|
                0 <= i < rs.len() && rule_applies(#[trigger] rs[i], action, protocol, port)
                    && target_matches(
                    rs[i].target,
                    host,
                    match addr {
                        Some(p) => Some(p.0),
                        None => None,
                    },
                )
            ||| addr matches Some(p) && dns.contains_key(p.1) && exists|j: int, i: int|
                0 <= j < dns[p.1].len() && 0 <= i < rs.len() && (#[trigger] dns[p.1][j]).1
                    == package && dns[p.1][j].2 > now && rule_applies(
                    #[trigger] rs[i],
                    action,
                    protocol,
                    port,
                ) && (match rs[i].target {
                    TargetView::Domain(d) => domain_matches(d, dns[p.1][j].0),
                    TargetView::Ip(_) => false,
                })
        }),
{
    let rs = rules[package];
    let action = action_of_code(action_code);
    let protocol = protocol_of_code(protocol_code);
    match addr {
        Some(p) => {
            if cache_allows(rs, dns, p.1, package, action, protocol, port, now) {
                let j = choose|j: int|
                    0 <= j < dns[p.1].len() && entry_allows(
                        rs,
                        #[trigger] dns[p.1][j],
                        package,
                        action,
                        protocol,
                        port,
                        now,
                    );
                let e = dns[p.1][j];
                let i = choose|i: int|
                    0 <= i < rs.len() && rule_applies(#[trigger] rs[i], action, protocol, port)
                        && match rs[i].target {
                        TargetView::Domain(d) => domain_matches(d, e.0),
                        TargetView::Ip(_) => false,
                    };
                assert(rs[i].target matches TargetView::Domain(d) && domain_matches(d, e.0));
            }
            if dns.contains_key(p.1) && exists|j: int, i: int|
                0 <= j < dns[p.1].len() && 0 <= i < rs.len() && (#[trigger] dns[p.1][j]).1
                    == package && dns[p.1][j].2 > now && rule_applies(
                    #[trigger] rs[i],
                    action,
                    protocol,
                    port,
                ) && (match rs[i].target {
                    TargetView::Domain(d) => domain_matches(d, dns[p.1][j].0),
                    TargetView::Ip(_) => false,
                }) {
                let (j, i) = choose|j: int, i: int|
                    0 <= j < dns[p.1].len() && 0 <= i < rs.len() && (#[trigger] dns[p.1][j]).1
                        == package && dns[p.1][j].2 > now && rule_applies(
                        #[trigger] rs[i],
                        action,
                        protocol,
                        port,
                    ) && (match rs[i].target {
                    TargetView::Domain(d) => domain_matches(d, dns[p.1][j].0),
                    TargetView::Ip(_) => false,
                });
                assert(rules_allow_domain(rs, dns[p.1][j].0, action, protocol, port));
                assert(entry_allows(rs, dns[p.1][j], package, action, protocol, port, now));
                assert(cache_allows(rs, dns, p.1, package, action, protocol, port, now));
            }
        },
        None => {},
    }
}

/// A target whose address range has a prefix no longer than its address.
pub open spec fn target_wf(t: TargetView) -> bool {
    match t {
        TargetView::Ip(n) => n.prefix_len <= ip_width(n.addr),
        TargetView::Domain(_) => true,
    }
}

spec fn target_view(t: NetTarget) -> TargetView {
    match t {
        NetTarget::Ip(n) => TargetView::Ip(n),
        NetTarget::Domain(d) => TargetView::Domain(d@),
    }
}

spec fn rule_view(r: NetRule) -> RuleView {
    RuleView {
        action: r.action,
        protocol: r.protocol,
        target: target_view(r.target),
        ports: r.port_pattern.ranges(),
    }
}

spec fn rules_view(v: Seq<NetRule>) -> Seq<RuleView> {
    v.map_values(|r: NetRule| rule_view(r))
}

/// Decides which connections and bindings each package may make.
pub struct NetManager {
    package_rules: StringHashMap<Vec<NetRule>>,
    dns_cache: DnsCache,
}

/// The address of the first entry for `host` (see [`host_address`]).
fn lookup_address(addrs: &Vec<(String, IpValue)>, host: &Vec<char>) -> (r: Option<IpValue>)
    ensures
        r == host_address(addrs_view(addrs@), host@),
{
    let ghost av = addrs_view(addrs@);
    assert(av.skip(0) =~= av);
    for i in 0..addrs.len()
        invariant
            av == addrs_view(addrs@),
            host_address(av, host@) == host_address(av.skip(i as int), host@),
    {
        assert(av.skip(i as int).drop_first() =~= av.skip(i + 1));
        assert(av.skip(i as int)[0] == av[i as int]);
        let name = to_chars(addrs[i].0.as_str());
        if chars_eq(&name, host) {
            return Some(addrs[i].1);
        }
    }
    assert(av.skip(addrs.len() as int) =~= Seq::<(Seq<char>, IpValue)>::empty());
    None
}

/// The target of a rule's host part (see [`target_of`]).
fn parse_target(host: &Vec<char>, addrs: &Vec<(String, IpValue)>) -> (r: NetTarget)
    ensures
        target_view(r) == target_of(host@, addrs_view(addrs@)),
        target_wf(target_view(r)),
{
    if host.len() == 1 && host[0] == '*' {
        assert(host@ =~= seq!['*']);
        return NetTarget::Ip(IpNetValue { addr: IpValue { v6: false, bits: 0 }, prefix_len: 0 });
    }
    assert(host@ != seq!['*']);
    let host_str = from_chars(host);
    match parse_ip_net(host_str.as_str()) {
        Some(n) => NetTarget::Ip(n),
        None => match lookup_address(addrs, host) {
            Some(a) => {
                let n = IpNetValue { addr: a, prefix_len: if a.v6 { 128 } else { 32 } };
                assert(n == host_net(a));
                NetTarget::Ip(n)
            },
            None => NetTarget::Domain(host_str),
        },
    }
}

/// The action a rule names (see [`action_named`]).
fn parse_action(a: &Vec<char>) -> (r: Option<NetAction>)
    ensures
        r == action_named(a@),
{
    if chars_eq(a, &to_chars("bind")) {
        Some(NetAction::Bind)
    } else if chars_eq(a, &to_chars("connect")) {
        Some(NetAction::Connect)
    } else {
        None
    }
}

/// The protocol a rule names (see [`protocol_named`]).
fn parse_protocol(p: &Vec<char>) -> (r: Option<NetProtocol>)
    ensures
        r == protocol_named(p@),
{
    let star: Vec<char> = vec!['*'];
    assert(star@ =~= seq!['*']);
    if chars_eq(p, &to_chars("tcp")) {
        Some(NetProtocol::Tcp)
    } else if chars_eq(p, &to_chars("udp")) {
        Some(NetProtocol::Udp)
    } else if chars_eq(p, &star) || chars_eq(p, &to_chars("any")) {
        Some(NetProtocol::Any)
    } else {
        None
    }
}

/// The action, protocol, host and port parts of a rule text (see
/// [`rule_fields`]).
fn split_rule(text: &Vec<char>) -> (r: Option<(Vec<char>, Vec<char>, Vec<char>, Vec<char>)>)
    ensures
        match r {
            Some(f) => rule_fields(text@) == Some((f.0@, f.1@, f.2@, f.3@)),
            None => rule_fields(text@) is None,
        },
{
    let parts = split_chars(text, ':');
    if parts.len() == 4 {
        assert(seqs_of(parts@)[0] == parts@[0]@);
        assert(seqs_of(parts@)[1] == parts@[1]@);
        assert(seqs_of(parts@)[2] == parts@[2]@);
        assert(seqs_of(parts@)[3] == parts@[3]@);
        Some((parts[0].clone(), parts[1].clone(), parts[2].clone(), parts[3].clone()))
    } else if parts.len() == 3 && chars_eq(&parts[0], &to_chars("allow")) {
        assert(seqs_of(parts@)[0] == parts@[0]@);
        assert(seqs_of(parts@)[1] == parts@[1]@);
        assert(seqs_of(parts@)[2] == parts@[2]@);
        let star: Vec<char> = vec!['*'];
        assert(star@ =~= seq!['*']);
        Some((to_chars("connect"), star, parts[1].clone(), parts[2].clone()))
    } else {
        proof {
            if parts.len() == 3 {
                assert(seqs_of(parts@)[0] == parts@[0]@);
            }
        }
        None
    }
}

/// The rule a text describes, or `None` when it is malformed.
fn parse_rule(text: &Vec<char>, addrs: &Vec<(String, IpValue)>) -> (r: Option<NetRule>)
    ensures
        match r {
            Some(x) => parse_rule_spec(text@, addrs_view(addrs@)) == Some(rule_view(x)) && target_wf(
                target_view(x.target),
            ),
            None => parse_rule_spec(text@, addrs_view(addrs@)) is None,
        },
{
    let (a, p, h, po) = match split_rule(text) {
        Some(f) => f,
        None => return None,
    };
    let action = match parse_action(&a) {
        Some(x) => x,
        None => return None,
    };
    let protocol = match parse_protocol(&p) {
        Some(x) => x,
        None => return None,
    };
    let port_pattern = PortPattern::parse_chars(&po);
    let target = parse_target(&h, addrs);
    let rule = NetRule { action, protocol, target, port_pattern };
    assert(rule_view(rule) =~= RuleView {
        action,
        protocol,
        target: target_of(h@, addrs_view(addrs@)),
        ports: port_ranges(po@),
    });
    Some(rule)
}

/// The well-formed rules of a list of rule texts, in order.
fn parse_rules(texts: &Vec<String>, addrs: &Vec<(String, IpValue)>) -> (r: Vec<NetRule>)
    ensures
        rules_view(r@) == parse_rules_spec(strings_view(texts@), addrs_view(addrs@)),
        forall|i: int| 0 <= i < r@.len() ==> target_wf(#[trigger] rules_view(r@)[i].target),
{
    let mut rules: Vec<NetRule> = Vec::new();
    for i in 0..texts.len()
        invariant
            rules_view(rules@) == parse_rules_spec(
                strings_view(texts@).take(i as int),
                addrs_view(addrs@),
            ),
            forall|j: int|
                0 <= j < rules@.len() ==> target_wf(#[trigger] rules_view(rules@)[j].target),
    {
        let ghost tv = strings_view(texts@);
        assert(tv.take(i + 1).drop_last() =~= tv.take(i as int));
        assert(tv.take(i + 1).last() == texts@[i as int]@);
        let text = to_chars(texts[i].as_str());
        let ghost before = rules_view(rules@);
        match parse_rule(&text, addrs) {
            Some(rule) => {
                rules.push(rule);
                assert(rules_view(rules@) =~= before.push(rule_view(rule)));
            },
            None => {},
        }
    }
    assert(strings_view(texts@).take(texts.len() as int) =~= strings_view(texts@));
    rules
}

/// The hosts of the well-formed-looking rule texts of a list, in order.
pub open spec fn hosts_of_rules(texts: Seq<Seq<char>>) -> Seq<Seq<char>>
    decreases texts.len(),
{
    if texts.len() == 0 {
        Seq::empty()
    } else {
        let prev = hosts_of_rules(texts.drop_last());
        match rule_fields(texts.last()) {
            Some(f) => prev.push(f.2),
            None => prev,
        }
    }
}

/// The hosts of the rules of all manifest entries, in order.
pub open spec fn hosts_of_entries(entries: Seq<(String, PackagePolicy)>) -> Seq<Seq<char>>
    decreases entries.len(),
{
    if entries.len() == 0 {
        Seq::empty()
    } else {
        hosts_of_entries(entries.drop_last()) + hosts_of_rules(
            strings_view(entries.last().1.network@),
        )
    }
}

/// Whether the rule applies to the request (see [`rule_applies`]).
fn applies(r: &NetRule, action: NetAction, protocol: NetProtocol, port: u16) -> (b: bool)
    ensures
        b == rule_applies(rule_view(*r), action, protocol, port),
{
    r.action == action && (r.protocol == NetProtocol::Any || protocol == NetProtocol::Any
        || r.protocol == protocol) && r.port_pattern.matches(port)
}

/// Whether the domain pattern matches the name (see [`domain_matches`]).
fn match_domain(pattern: &Vec<char>, domain: &Vec<char>) -> (b: bool)
    ensures
        b == domain_matches(pattern@, domain@),
{
    if pattern.len() == 1 && pattern[0] == '*' {
        assert(pattern@ =~= seq!['*']);
        return true;
    }
    assert(pattern@ != seq!['*']);
    let star_dot: Vec<char> = vec!['*', '.'];
    assert(star_dot@ =~= seq!['*', '.']);
    if chars_starts_with(pattern, &star_dot) {
        let suffix = chars_slice(pattern, 1, pattern.len());
        assert(suffix@ =~= pattern@.skip(1));
        chars_ends_with(domain, &suffix)
    } else {
        chars_eq(pattern, domain)
    }
}

/// Whether the rule's target matches the host (see [`target_matches`]).
fn target_hit(t: &NetTarget, host: &Vec<char>, addr: Option<IpValue>) -> (b: bool)
    requires
        target_wf(target_view(*t)),
    ensures
        b == target_matches(target_view(*t), host@, addr),
{
    match t {
        NetTarget::Ip(n) => match addr {
            Some(a) => ip_net_contains(*n, a) || (n.addr == IpValue { v6: false, bits: 0 }
                && n.prefix_len == 0),
            None => false,
        },
        NetTarget::Domain(d) => match_domain(&to_chars(d.as_str()), host),
    }
}

/// Whether some applicable rule's target matches the host.
fn rules_hit(
    rules: &Vec<NetRule>,
    host: &Vec<char>,
    addr: Option<IpValue>,
    action: NetAction,
    protocol: NetProtocol,
    port: u16,
) -> (b: bool)
    requires
        forall|i: int| 0 <= i < rules@.len() ==> target_wf(#[trigger] rules_view(rules@)[i].target),
    ensures
        b == rules_allow(rules_view(rules@), host@, addr, action, protocol, port),
{
    let ghost rs = rules_view(rules@);
    for i in 0..rules.len()
        invariant
            rs == rules_view(rules@),
            forall|k: int| 0 <= k < rules@.len() ==> target_wf(#[trigger] rs[k].target),
            forall|j: int|
                0 <= j < i ==> !(rule_applies(#[trigger] rs[j], action, protocol, port)
                    && target_matches(rs[j].target, host@, addr)),
    {
        assert(rs[i as int] == rule_view(rules@[i as int]));
        if applies(&rules[i], action, protocol, port) && target_hit(&rules[i].target, host, addr) {
            return true;
        }
    }
    false
}

/// Whether some applicable rule has a domain pattern matching `domain`.
fn rules_hit_domain(
    rules: &Vec<NetRule>,
    domain: &Vec<char>,
    action: NetAction,
    protocol: NetProtocol,
    port: u16,
) -> (b: bool)
    ensures
        b == rules_allow_domain(rules_view(rules@), domain@, action, protocol, port),
{
    let ghost rs = rules_view(rules@);
    for i in 0..rules.len()
        invariant
            rs == rules_view(rules@),
            forall|j: int|
                0 <= j < i ==> !(rule_applies(#[trigger] rs[j], action, protocol, port)
                    && match rs[j].target {
                    TargetView::Domain(d) => domain_matches(d, domain@),
                    TargetView::Ip(_) => false,
                }),
    {
        assert(rs[i as int] == rule_view(rules@[i as int]));
        if applies(&rules[i], action, protocol, port) {
            match &rules[i].target {
                NetTarget::Domain(d) => {
                    if match_domain(&to_chars(d.as_str()), domain) {
                        return true;
                    }
                },
                NetTarget::Ip(_) => {},
            }
        }
    }
    false
}

/// Whether some cache entry vouches for the request.
fn entries_hit(
    rules: &Vec<NetRule>,
    entries: &Vec<(String, String, u64)>,
    package: &Vec<char>,
    action: NetAction,
    protocol: NetProtocol,
    port: u16,
    now: u64,
) -> (b: bool)
    ensures
        b == exists|j: int|
            0 <= j < entries@.len() && entry_allows(
                rules_view(rules@),
                #[trigger] entries_view(entries@)[j],
                package@,
                action,
                protocol,
                port,
                now,
            ),
{
    let ghost ev = entries_view(entries@);
    for j in 0..entries.len()
        invariant
            ev == entries_view(entries@),
            forall|k: int|
                0 <= k < j ==> !entry_allows(
                    rules_view(rules@),
                    #[trigger] ev[k],
                    package@,
                    action,
                    protocol,
                    port,
                    now,
                ),
    {
        let (domain, owner, expiry) = &entries[j];
        assert(ev[j as int] == (domain@, owner@, *expiry));
        if *expiry > now && chars_eq(&to_chars(owner.as_str()), package) {
            if rules_hit_domain(rules, &to_chars(domain.as_str()), action, protocol, port) {
                return true;
            }
        }
    }
    false
}

/// The exact domains of the applicable rules (see [`candidate_domains`]).
fn candidates(rules: &Vec<NetRule>, action: NetAction, protocol: NetProtocol, port: u16) -> (r: Vec<
    String,
>)
    ensures
        strings_view(r@) == candidate_domains(rules_view(rules@), action, protocol, port),
{
    let mut out: Vec<String> = Vec::new();
    for i in 0..rules.len()
        invariant
            strings_view(out@) == candidate_domains(
                rules_view(rules@).take(i as int),
                action,
                protocol,
                port,
            ),
    {
        let ghost rs = rules_view(rules@);
        assert(rs.take(i + 1).drop_last() =~= rs.take(i as int));
        assert(rs.take(i + 1).last() == rule_view(rules@[i as int]));
        let ghost before = strings_view(out@);
        if applies(&rules[i], action, protocol, port) {
            match &rules[i].target {
                NetTarget::Domain(d) => {
                    if !chars_contains(&to_chars(d.as_str()), '*') {
                        out.push(d.clone());
                        assert(strings_view(out@) =~= before.push(d@));
                    }
                },
                NetTarget::Ip(_) => {},
            }
        }
    }
    assert(rules_view(rules@).take(rules.len() as int) =~= rules_view(rules@));
    out
}

impl NetManager {
    /// The rules of each package.
    pub closed spec fn rules(&self) -> Map<Seq<char>, Seq<RuleView>> {
        self.package_rules@.map_values(|v: Vec<NetRule>| rules_view(v@))
    }

    /// The DNS cache: for each address text, the (domain, package, expiry) of
    /// the resolutions that gave it.
    pub closed spec fn dns(&self) -> Map<Seq<char>, Seq<(Seq<char>, Seq<char>, u64)>> {
        dns_entries(self.dns_cache)
    }

    /// Every address range among the rules has a prefix no longer than its
    /// address.
    pub closed spec fn wf(&self) -> bool {
        forall|p: Seq<char>, i: int|
            #![trigger self.rules()[p][i]]
            self.rules().contains_key(p) && 0 <= i < self.rules()[p].len() ==> target_wf(
                self.rules()[p][i].target,
            )
    }

    /// The hosts of the rules of a manifest that may be addresses, for the
    /// caller to parse before building a manager.
    pub fn rule_hosts(packages: &Vec<(String, PackagePolicy)>) -> (r: Vec<String>)
        ensures
            strings_view(r@) == hosts_of_entries(packages@),
    {
        let mut out: Vec<String> = Vec::new();
        for i in 0..packages.len()
            invariant
                strings_view(out@) == hosts_of_entries(packages@.take(i as int)),
        {
            assert(packages@.take(i + 1).drop_last() =~= packages@.take(i as int));
            assert(packages@.take(i + 1).last() == packages@[i as int]);
            let texts = &packages[i].1.network;
            let ghost start = strings_view(out@);
            for j in 0..texts.len()
                invariant
                    strings_view(out@) == start + hosts_of_rules(
                        strings_view(texts@).take(j as int),
                    ),
            {
                let ghost tv = strings_view(texts@);
                assert(tv.take(j + 1).drop_last() =~= tv.take(j as int));
                assert(tv.take(j + 1).last() == texts@[j as int]@);
                let ghost before = strings_view(out@);
                match split_rule(&to_chars(texts[j].as_str())) {
                    Some(f) => {
                        out.push(from_chars(&f.2));
                        assert(strings_view(out@) =~= before.push(f.2@));
                        assert(start + hosts_of_rules(tv.take(j + 1)) =~= before.push(f.2@));
                    },
                    None => {},
                }
            }
            assert(strings_view(texts@).take(texts.len() as int) =~= strings_view(texts@));
        }
        assert(packages@.take(packages.len() as int) =~= packages@);
        out
    }

    /// Parses each package's network rules, ignoring malformed ones.
    /// `host_addresses` lists the rule hosts that are addresses (as
    /// `IpAddr::from_str` reads them), with their values.
    pub fn new(packages: &Vec<(String, PackagePolicy)>, host_addresses: &Vec<(String, IpValue)>) -> (r:
        Self)
        ensures
            r.wf(),
            r.rules() == net_rules_of(packages@, addrs_view(host_addresses@)),
            r.dns().is_empty(),
    {
        let ghost av = addrs_view(host_addresses@);
        let mut package_rules: StringHashMap<Vec<NetRule>> = StringHashMap::new();
        assert(package_rules@.map_values(|v: Vec<NetRule>| rules_view(v@)) =~= net_rules_of(
            packages@.take(0),
            av,
        ));
        for i in 0..packages.len()
            invariant
                av == addrs_view(host_addresses@),
                package_rules@.map_values(|v: Vec<NetRule>| rules_view(v@)) == net_rules_of(
                    packages@.take(i as int),
                    av,
                ),
                forall|p: Seq<char>, k: int|
                    #![trigger package_rules@[p]@[k]]
                    package_rules@.contains_key(p) && 0 <= k < package_rules@[p]@.len()
                        ==> target_wf(target_view(package_rules@[p]@[k].target)),
        {
            let ghost before = package_rules@;
            let (name, policy) = &packages[i];
            let rules = parse_rules(&policy.network, host_addresses);
            let ghost prefix = packages@.take(i + 1);
            assert(prefix.drop_last() =~= packages@.take(i as int));
            assert(prefix.last() == packages@[i as int]);
            proof {
                lemma_package_map_insert(
                    before,
                    |v: Vec<NetRule>| rules_view(v@),
                    prefix,
                    |p: PackagePolicy| parse_rules_spec(strings_view(p.network@), av),
                    rules,
                );
            }
            package_rules.insert(name.clone(), rules);
            assert forall|p: Seq<char>, k: int|
                #![trigger package_rules@[p]@[k]]
                package_rules@.contains_key(p) && 0 <= k < package_rules@[p]@.len()
                    implies target_wf(target_view(package_rules@[p]@[k].target)) by {
                if p == name@ {
                    assert(package_rules@[p] == rules);
                    assert(target_wf(rules_view(rules@)[k].target));
                    assert(rules_view(rules@)[k] == rule_view(rules@[k]));
                } else {
                    assert(package_rules@[p] == before[p]);
                }
            }
        }
        assert(packages@.take(packages.len() as int) =~= packages@);
        let r = NetManager { package_rules, dns_cache: dns_cache_new() };
        assert forall|p: Seq<char>, i: int|
            #![trigger r.rules()[p][i]]
            r.rules().contains_key(p) && 0 <= i < r.rules()[p].len() implies target_wf(
                r.rules()[p][i].target,
            ) by {
            assert(r.rules()[p] == rules_view(r.package_rules@[p]@));
            assert(r.rules()[p][i] == rule_view(r.package_rules@[p]@[i]));
        }
        r
    }

    /// The verdict on a request from `package_name` to `host_or_ip` (see
    /// [`net_verdict`]). `host_addr` is the address that `host_or_ip` reads
    /// as (`IpAddr::from_str`), with that address's text, or `None` when it is
    /// no address; `now` is the current time in milliseconds.
    pub fn is_allowed(
        &self,
        package_name: &str,
        host_or_ip: &str,
        host_addr: Option<(IpValue, String)>,
        port: u16,
        action_code: i32,
        protocol_code: i32,
        now: u64,
    ) -> (r: NetVerdict)
        requires
            self.wf(),
        ensures
            verdict_view(r) == net_verdict(
                self.rules(),
                self.dns(),
                package_name@,
                host_or_ip@,
                match host_addr {
                    Some(p) => Some((p.0, p.1@)),
                    None => None,
                },
                port,
                action_code,
                protocol_code,
                now,
            ),
    {
        let rules = match self.package_rules.get(package_name) {
            Some(r) => r,
            None => {
                if chars_eq(&to_chars(package_name), &root_name()) {
                    return NetVerdict::Allowed;
                } else {
                    return NetVerdict::Denied;
                }
            },
        };
        assert(rules_view(rules@) == self.rules()[package_name@]);
        assert forall|i: int| 0 <= i < rules@.len() implies target_wf(
            #[trigger] rules_view(rules@)[i].target,
        ) by {
            assert(self.rules()[package_name@][i] == rules_view(rules@)[i]);
        }
        let action = if action_code == 1 { NetAction::Bind } else { NetAction::Connect };
        let protocol = if protocol_code == 6 {
            NetProtocol::Tcp
        } else if protocol_code == 17 {
            NetProtocol::Udp
        } else {
            NetProtocol::Any
        };
        let host = to_chars(host_or_ip);
        let addr = match &host_addr {
            Some(p) => Some(p.0),
            None => None,
        };
        if rules_hit(rules, &host, addr, action, protocol, port) {
            return NetVerdict::Allowed;
        }
        match host_addr {
            None => NetVerdict::Denied,
            Some((a, ip_key)) => {
                let package = to_chars(package_name);
                match dns_cache_get(&self.dns_cache, ip_key.as_str()) {
                    Some(entries) => {
                        if entries_hit(rules, &entries, &package, action, protocol, port, now) {
                            return NetVerdict::Allowed;
                        }
                    },
                    None => {},
                }
                let domains = candidates(rules, action, protocol, port);
                if domains.len() == 0 {
                    NetVerdict::Denied
                } else {
                    NetVerdict::Unresolved { addr: a, ip_key, domains }
                }
            },
        }
    }

    /// Records that resolving `domain` for `package` gave each of `ips`: an
    /// entry expiring after the clamped time-to-live (see [`dns_expiry`]) is
    /// appended under each address text. `now` is in milliseconds.
    pub fn register_dns(&mut self, package: &str, domain: &str, ips: Vec<String>, ttl: u32, now: u64)
        requires
            now <= u64::MAX - 3_600_000,
        ensures
            final(self).rules() == old(self).rules(),
            final(self).wf() == old(self).wf(),
            final(self).dns() == dns_after(
                old(self).dns(),
                strings_view(ips@),
                (domain@, package@, dns_expiry(ttl, now) as u64),
            ),
    {
        let ttl_secs: u64 = if ttl < 5 {
            5
        } else if ttl > 3600 {
            3600
        } else {
            ttl as u64
        };
        let expiry: u64 = now + ttl_secs * 1000;
        let ghost entry = (domain@, package@, expiry);
        for i in 0..ips.len()
            invariant
                self.rules() == old(self).rules(),
                self.package_rules == old(self).package_rules,
                entry == (domain@, package@, expiry),
                expiry == dns_expiry(ttl, now),
                self.dns() == dns_after(old(self).dns(), strings_view(ips@).take(i as int), entry),
        {
            let ghost before = self.dns();
            let ghost keys = strings_view(ips@);
            assert(keys.take(i + 1).drop_last() =~= keys.take(i as int));
            assert(keys.take(i + 1).last() == ips@[i as int]@);
            let mut entries = match dns_cache_get(&self.dns_cache, ips[i].as_str()) {
                Some(v) => v,
                None => {
                    let v: Vec<(String, String, u64)> = Vec::new();
                    assert(entries_view(v@) =~= Seq::<(Seq<char>, Seq<char>, u64)>::empty());
                    v
                },
            };
            let ghost old_entries = entries_view(entries@);
            entries.push((domain.to_owned(), package.to_owned(), expiry));
            assert(entries_view(entries@) =~= old_entries.push(entry));
            dns_cache_insert(&mut self.dns_cache, ips[i].clone(), entries);
        }
        assert(strings_view(ips@).take(ips.len() as int) =~= strings_view(ips@));
    }

    /// Completes an unresolved request: when the fresh resolution of `domain`
    /// gave `addr`, remembers that for a minute (under the address text
    /// `ip_key`) and allows the request.
    pub fn confirm_resolution(
        &mut self,
        package: &str,
        domain: &str,
        addr: IpValue,
        ip_key: &str,
        resolved: &Vec<IpValue>,
        now: u64,
    ) -> (r: bool)
        requires
            now <= u64::MAX - 3_600_000,
        ensures
            r == resolved@.contains(addr),
            final(self).rules() == old(self).rules(),
            final(self).wf() == old(self).wf(),
            final(self).dns() == if r {
                dns_after(old(self).dns(), seq![ip_key@], (domain@, package@, dns_expiry(60, now) as u64))
            } else {
                old(self).dns()
            },
    {
        for i in 0..resolved.len()
            invariant
                forall|j: int| 0 <= j < i ==> resolved@[j] != addr,
                self.rules() == old(self).rules(),
                self.wf() == old(self).wf(),
                self.dns() == old(self).dns(),
                now <= u64::MAX - 3_600_000,
        {
            if resolved[i] == addr {
                assert(resolved@[i as int] == addr);
                let key = ip_key.to_owned();
                let keys = vec![key];
                assert(strings_view(keys@) =~= seq![ip_key@]);
                self.register_dns(package, domain, keys, 60, now);
                return true;
            }
        }
        false
    }
}

} // verus!
