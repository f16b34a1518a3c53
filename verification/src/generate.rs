//! Learning mode: turning an audit log into a manifest that grants each
//! package what it was seen to attempt.

use vstd::prelude::*;
use crate::audit::{action_name_spec, decimal_spec, digit_char, net_target_spec, protocol_name_spec};
use crate::evaluator::dlopen_allowed;
use crate::ip::{host_net, ip_net_parse, net_contains, IpValue};
use crate::net::{
    action_named, action_of_code, dns_after, dns_expiry, host_address, lemma_connect_any_fields,
    net_verdict, parse_rules_concat, parse_rules_spec, registered_resolution_allows,
    rules_allow_domain, VerdictView, parse_rule_spec, protocol_named, rule_fields, protocol_of_code, rule_applies, target_matches,
    target_of, NetAction, NetProtocol, RuleView, TargetView,
};
use crate::paths::normalize_spec;
use crate::policy::{copy_strings, strings_view};
use crate::ports::{all_digits, digits_value, parse_u16_spec, port_in, port_ranges, ranges_of_parts};
use crate::proc_env::{env_allowed, pattern_matches, proc_allowed, proc_pattern_form};
use crate::text::{
    chars_eq, chars_lt, find_spec, has_prefix, has_suffix, join_spec, lemma_seq_lt_irreflexive,
    lemma_seq_lt_total, lemma_seq_lt_transitive, lemma_split_join, lemma_split_no_sep, occurs_at,
    seq_lt, split_spec, to_chars,
};

verus! {

/// The capabilities learned for one package; no list repeats an entry.
#[derive(Debug)]
pub struct GeneratedPolicy {
    pub fs: Vec<String>,
    pub native_addons: Vec<String>,
    pub network: Vec<String>,
    pub env: Vec<String>,
    pub proc: Vec<String>,
}

/// The capabilities learned for one package, as sets.
#[verifier::ext_equal]
pub struct PolicySets {
    pub fs: Set<Seq<char>>,
    pub native_addons: Set<Seq<char>>,
    pub network: Set<Seq<char>>,
    pub env: Set<Seq<char>>,
    pub proc: Set<Seq<char>>,
}

/// No capabilities.
pub open spec fn empty_sets() -> PolicySets {
    PolicySets {
        fs: Set::empty(),
        native_addons: Set::empty(),
        network: Set::empty(),
        env: Set::empty(),
        proc: Set::empty(),
    }
}

/// The capabilities after one event: its target joins the set its action
/// names (`fs`, `native_addons`, `network`, `env`, `proc`); other actions
/// add nothing.
pub open spec fn add_target(p: PolicySets, action: Seq<char>, target: Seq<char>) -> PolicySets {
    if action == "fs"@ {
        PolicySets { fs: p.fs.insert(target), ..p }
    } else if action == "native_addons"@ {
        PolicySets { native_addons: p.native_addons.insert(target), ..p }
    } else if action == "network"@ {
        PolicySets { network: p.network.insert(target), ..p }
    } else if action == "env"@ {
        PolicySets { env: p.env.insert(target), ..p }
    } else if action == "proc"@ {
        PolicySets { proc: p.proc.insert(target), ..p }
    } else {
        p
    }
}

/// The learned manifest after one event: the package is listed (even when
/// the action is unknown) and its capabilities grow by the event.
pub open spec fn record_event(
    m: Map<Seq<char>, PolicySets>,
    package: Seq<char>,
    action: Seq<char>,
    target: Seq<char>,
) -> Map<Seq<char>, PolicySets> {
    let p = if m.contains_key(package) {
        m[package]
    } else {
        empty_sets()
    };
    m.insert(package, add_target(p, action, target))
}

/// The entries of a list are distinct.
pub open spec fn distinct(s: Seq<Seq<char>>) -> bool {
    forall|i: int, j: int| 0 <= i < j < s.len() ==> s[i] != s[j]
}

/// The entries of a list are in strictly increasing lexicographic order, as
/// a sorted set of strings keeps them.
pub open spec fn sorted_strs(s: Seq<Seq<char>>) -> bool {
    forall|i: int, j: int| 0 <= i < j < s.len() ==> seq_lt(s[i], s[j])
}

/// Inserting an entry between the smaller and the larger ones keeps a list
/// strictly increasing.
proof fn lemma_sorted_insert(s: Seq<Seq<char>>, i: int, x: Seq<char>)
    requires
        sorted_strs(s),
        0 <= i <= s.len(),
        forall|j: int| 0 <= j < i ==> seq_lt(#[trigger] s[j], x),
        i < s.len() ==> seq_lt(x, s[i]),
    ensures
        sorted_strs(s.insert(i, x)),
{
    let t = s.insert(i, x);
    assert forall|a: int, b: int| 0 <= a < b < t.len() implies seq_lt(t[a], t[b]) by {
        if b < i {
            assert(t[a] == s[a] && t[b] == s[b]);
        } else if b == i {
            assert(t[a] == s[a] && t[b] == x);
        } else if a < i {
            assert(t[a] == s[a] && t[b] == s[b - 1]);
            if b - 1 > i {
                lemma_seq_lt_transitive(x, s[i], s[b - 1]);
            }
            lemma_seq_lt_transitive(s[a], x, s[b - 1]);
        } else if a == i {
            assert(t[a] == x && t[b] == s[b - 1]);
            if b - 1 > i {
                lemma_seq_lt_transitive(x, s[i], s[b - 1]);
            }
        } else {
            assert(t[a] == s[a - 1] && t[b] == s[b - 1]);
        }
    }
}

/// Inserting into a list adds one element to its set.
proof fn lemma_insert_to_set(s: Seq<Seq<char>>, i: int, x: Seq<char>)
    requires
        0 <= i <= s.len(),
    ensures
        s.insert(i, x).to_set() == s.to_set().insert(x),
{
    let t = s.insert(i, x);
    assert forall|y: Seq<char>| t.to_set().contains(y) <==> s.to_set().insert(x).contains(y) by {
        if t.contains(y) {
            let k = choose|k: int| 0 <= k < t.len() && t[k] == y;
            if k < i {
                assert(s[k] == y);
            } else if k > i {
                assert(s[k - 1] == y);
            }
        }
        if s.contains(y) {
            let k = choose|k: int| 0 <= k < s.len() && s[k] == y;
            if k < i {
                assert(t[k] == y);
            } else {
                assert(t[k + 1] == y);
            }
        }
        if y == x {
            assert(t[i] == y);
        }
    }
    assert(t.to_set() =~= s.to_set().insert(x));
}

/// The sets of a learned policy.
pub open spec fn sets_of(p: GeneratedPolicy) -> PolicySets {
    PolicySets {
        fs: strings_view(p.fs@).to_set(),
        native_addons: strings_view(p.native_addons@).to_set(),
        network: strings_view(p.network@).to_set(),
        env: strings_view(p.env@).to_set(),
        proc: strings_view(p.proc@).to_set(),
    }
}

/// Every list of a learned policy is in strictly increasing order (so none
/// repeats an entry).
pub open spec fn policy_sorted(p: GeneratedPolicy) -> bool {
    &&& sorted_strs(strings_view(p.fs@))
    &&& sorted_strs(strings_view(p.native_addons@))
    &&& sorted_strs(strings_view(p.network@))
    &&& sorted_strs(strings_view(p.env@))
    &&& sorted_strs(strings_view(p.proc@))
}

/// The names of a list of entries.
pub open spec fn names_of(entries: Seq<(String, GeneratedPolicy)>) -> Seq<Seq<char>> {
    entries.map_values(|e: (String, GeneratedPolicy)| e.0@)
}

/// The map of a list of entries with distinct names.
pub open spec fn entries_map(entries: Seq<(String, GeneratedPolicy)>) -> Map<Seq<char>, PolicySets> {
    Map::new(
        |k: Seq<char>| names_of(entries).contains(k),
        |k: Seq<char>|
            sets_of(entries[choose|i: int| 0 <= i < entries.len() && names_of(entries)[i] == k].1),
    )
}

/// Builds a manifest from audit events (the `astraea-gen` tool's logic).
pub struct ManifestGenerator {
    packages: Vec<(String, GeneratedPolicy)>,
}

/// `target` added, at its place in order, to a strictly increasing list,
/// unless already there.
fn add_unique(list: &Vec<String>, target: &str) -> (r: Vec<String>)
    requires
        sorted_strs(strings_view(list@)),
    ensures
        sorted_strs(strings_view(r@)),
        strings_view(r@).to_set() == strings_view(list@).to_set().insert(target@),
{
    let t = to_chars(target);
    let ghost lv = strings_view(list@);
    let mut i: usize = 0;
    let mut stop = false;
    while !stop && i < list.len()
        invariant
            i <= list.len(),
            lv == strings_view(list@),
            t@ == target@,
            forall|j: int| 0 <= j < i ==> seq_lt(#[trigger] lv[j], target@),
            stop ==> i < list.len() && !seq_lt(lv[i as int], target@),
        decreases list.len() - i + (if stop {
            0int
        } else {
            1int
        }),
    {
        if chars_lt(&to_chars(list[i].as_str()), &t) {
            i = i + 1;
        } else {
            stop = true;
        }
    }
    if i < list.len() && chars_eq(&to_chars(list[i].as_str()), &t) {
        assert(lv[i as int] == target@);
        assert(lv.to_set().insert(target@) =~= lv.to_set());
        let r = copy_strings(list);
        assert(strings_view(r@) == lv);
        return r;
    }
    if i < list.len() {
        proof {
            lemma_seq_lt_total(lv[i as int], target@);
        }
    }
    let mut r = copy_strings(list);
    assert(r.len() == list.len()) by {
        assert(strings_view(r@).len() == strings_view(list@).len());
    }
    r.insert(i, target.to_owned());
    assert(strings_view(r@) =~= lv.insert(i as int, target@));
    proof {
        lemma_sorted_insert(lv, i as int, target@);
        lemma_insert_to_set(lv, i as int, target@);
    }
    r
}

/// A copy of a learned policy.
fn copy_policy(p: &GeneratedPolicy) -> (r: GeneratedPolicy)
    ensures
        sets_of(r) == sets_of(*p),
        policy_sorted(r) == policy_sorted(*p),
{
    GeneratedPolicy {
        fs: copy_strings(&p.fs),
        native_addons: copy_strings(&p.native_addons),
        network: copy_strings(&p.network),
        env: copy_strings(&p.env),
        proc: copy_strings(&p.proc),
    }
}

/// Adding to a map built from entries with distinct names.
proof fn lemma_entries_map_update(
    entries: Seq<(String, GeneratedPolicy)>,
    i: int,
    e: (String, GeneratedPolicy),
)
    requires
        distinct(names_of(entries)),
        0 <= i < entries.len(),
        entries[i].0@ == e.0@,
    ensures
        distinct(names_of(entries.update(i, e))),
        entries_map(entries.update(i, e)) == entries_map(entries).insert(e.0@, sets_of(e.1)),
{
    let u = entries.update(i, e);
    assert(names_of(u) =~= names_of(entries));
    let lhs = entries_map(u);
    let rhs = entries_map(entries).insert(e.0@, sets_of(e.1));
    assert(names_of(entries)[i] == e.0@);
    assert forall|k: Seq<char>| #[trigger] lhs.contains_key(k) implies lhs[k] == rhs[k] by {
        let c = choose|j: int| 0 <= j < u.len() && names_of(u)[j] == k;
        if k == e.0@ {
            assert(c == i);
        } else {
            let c2 = choose|j: int| 0 <= j < entries.len() && names_of(entries)[j] == k;
            assert(c == c2);
        }
    }
    assert(lhs.dom() =~= rhs.dom());
    assert(lhs =~= rhs);
}

/// Inserting an entry with a new name.
proof fn lemma_entries_map_insert(
    entries: Seq<(String, GeneratedPolicy)>,
    k: int,
    e: (String, GeneratedPolicy),
)
    requires
        distinct(names_of(entries)),
        !names_of(entries).contains(e.0@),
        0 <= k <= entries.len(),
    ensures
        names_of(entries.insert(k, e)) == names_of(entries).insert(k, e.0@),
        distinct(names_of(entries.insert(k, e))),
        entries_map(entries.insert(k, e)) == entries_map(entries).insert(e.0@, sets_of(e.1)),
{
    let u = entries.insert(k, e);
    let nu = names_of(u);
    let ne = names_of(entries);
    assert(nu =~= ne.insert(k, e.0@));
    assert forall|a: int, b: int| 0 <= a < b < nu.len() implies nu[a] != nu[b] by {
        if a == k {
            assert(nu[b] == ne[b - 1]);
        } else if b == k {
            assert(nu[a] == ne[a]);
        } else {
            assert(nu[a] == ne[if a < k { a } else { a - 1 }]);
            assert(nu[b] == ne[if b < k { b } else { b - 1 }]);
        }
    }
    let lhs = entries_map(u);
    let rhs = entries_map(entries).insert(e.0@, sets_of(e.1));
    assert forall|x: Seq<char>| lhs.contains_key(x) <==> rhs.contains_key(x) by {
        if nu.contains(x) {
            let j = choose|j: int| 0 <= j < nu.len() && nu[j] == x;
            if j < k {
                assert(ne[j] == x);
            } else if j > k {
                assert(ne[j - 1] == x);
            }
        }
        if ne.contains(x) {
            let j = choose|j: int| 0 <= j < ne.len() && ne[j] == x;
            if j < k {
                assert(nu[j] == x);
            } else {
                assert(nu[j + 1] == x);
            }
        }
        if x == e.0@ {
            assert(nu[k] == x);
        }
    }
    assert forall|x: Seq<char>| #[trigger] lhs.contains_key(x) implies lhs[x] == rhs[x] by {
        let c = choose|j: int| 0 <= j < u.len() && names_of(u)[j] == x;
        if x == e.0@ {
            assert(nu[k] == x);
            assert(c == k);
        } else {
            let c2 = choose|j: int| 0 <= j < entries.len() && names_of(entries)[j] == x;
            let pos = if c2 < k { c2 } else { c2 + 1 };
            assert(nu[pos] == x);
            assert(c == pos);
            assert(u[pos] == entries[c2]);
        }
    }
    assert(lhs.dom() =~= rhs.dom());
    assert(lhs =~= rhs);
}

impl ManifestGenerator {
    /// The capabilities learned so far, per package.
    pub closed spec fn policies(&self) -> Map<Seq<char>, PolicySets> {
        entries_map(self.packages@)
    }

    /// Package names and every capability list are in strictly increasing
    /// order.
    pub closed spec fn wf(&self) -> bool {
        &&& distinct(names_of(self.packages@))
        &&& sorted_strs(names_of(self.packages@))
        &&& forall|i: int| 0 <= i < self.packages@.len() ==> policy_sorted(#[trigger] self.packages@[i].1)
    }

    /// A generator that has seen no event.
    pub fn new() -> (r: Self)
        ensures
            r.wf(),
            r.policies() == Map::<Seq<char>, PolicySets>::empty(),
    {
        let r = ManifestGenerator { packages: Vec::new() };
        assert(r.policies() =~= Map::<Seq<char>, PolicySets>::empty());
        r
    }

    /// Learns from one audit event (see [`record_event`]).
    pub fn add_event(&mut self, package: &str, action: &str, target: &str)
        requires
            old(self).wf(),
        ensures
            final(self).wf(),
            final(self).policies() == record_event(old(self).policies(), package@, action@, target@),
    {
        let pkg = to_chars(package);
        let ghost nv = names_of(self.packages@);
        let mut i: usize = 0;
        let mut stop = false;
        while !stop && i < self.packages.len()
            invariant
                i <= self.packages.len(),
                nv == names_of(self.packages@),
                pkg@ == package@,
                forall|j: int| 0 <= j < i ==> seq_lt(#[trigger] nv[j], package@),
                stop ==> i < self.packages.len() && !seq_lt(nv[i as int], package@),
            decreases self.packages.len() - i + (if stop {
                0int
            } else {
                1int
            }),
        {
            if chars_lt(&to_chars(self.packages[i].0.as_str()), &pkg) {
                i = i + 1;
            } else {
                stop = true;
            }
        }
        let found = i < self.packages.len() && chars_eq(&to_chars(self.packages[i].0.as_str()), &pkg);
        let ghost start = self.packages@;
        if !found && i < self.packages.len() {
            proof {
                lemma_seq_lt_total(nv[i as int], package@);
            }
        }
        assert(!found ==> !nv.contains(package@)) by {
            if !found && nv.contains(package@) {
                let j = choose|j: int| 0 <= j < nv.len() && nv[j] == package@;
                lemma_seq_lt_irreflexive(package@);
                if j > i {
                    lemma_seq_lt_transitive(package@, nv[i as int], nv[j]);
                }
            }
        }
        let idx = if found {
            assert(nv[i as int] == package@);
            i
        } else {
            let empty = GeneratedPolicy {
                fs: Vec::new(),
                native_addons: Vec::new(),
                network: Vec::new(),
                env: Vec::new(),
                proc: Vec::new(),
            };
            let entry = (package.to_owned(), empty);
            assert(sets_of(entry.1) =~= empty_sets());
            assert(policy_sorted(entry.1));
            proof {
                lemma_entries_map_insert(start, i as int, entry);
                lemma_sorted_insert(nv, i as int, package@);
            }
            self.packages.insert(i, entry);
            assert forall|j: int| 0 <= j < self.packages@.len() implies policy_sorted(
                #[trigger] self.packages@[j].1,
            ) by {
                if j < i {
                    assert(self.packages@[j] == start[j]);
                } else if j > i {
                    assert(self.packages@[j] == start[j - 1]);
                }
            }
            i
        };
        let ghost mid = self.packages@;
        assert(entries_map(mid).contains_key(package@)) by {
            assert(names_of(mid)[idx as int] == package@);
        }
        assert(entries_map(mid)[package@] == sets_of(mid[idx as int].1)) by {
            let c = choose|j: int| 0 <= j < mid.len() && names_of(mid)[j] == package@;
            assert(names_of(mid)[idx as int] == package@);
            assert(c == idx);
        }
        assert(entries_map(mid) == entries_map(start).insert(
            package@,
            if entries_map(start).contains_key(package@) {
                entries_map(start)[package@]
            } else {
                empty_sets()
            },
        )) by {
            if found {
                assert(entries_map(start).contains_key(package@)) by {
                    assert(nv[idx as int] == package@);
                }
                assert(entries_map(start).insert(package@, entries_map(start)[package@])
                    =~= entries_map(start));
            }
        }
        let old_policy = copy_policy(&self.packages[idx].1);
        let p = &self.packages[idx].1;
        let new_policy = if chars_eq(&to_chars(action), &to_chars("fs")) {
            GeneratedPolicy { fs: add_unique(&p.fs, target), ..old_policy }
        } else if chars_eq(&to_chars(action), &to_chars("native_addons")) {
            GeneratedPolicy { native_addons: add_unique(&p.native_addons, target), ..old_policy }
        } else if chars_eq(&to_chars(action), &to_chars("network")) {
            GeneratedPolicy { network: add_unique(&p.network, target), ..old_policy }
        } else if chars_eq(&to_chars(action), &to_chars("env")) {
            GeneratedPolicy { env: add_unique(&p.env, target), ..old_policy }
        } else if chars_eq(&to_chars(action), &to_chars("proc")) {
            GeneratedPolicy { proc: add_unique(&p.proc, target), ..old_policy }
        } else {
            old_policy
        };
        assert(sets_of(new_policy) =~= add_target(sets_of(mid[idx as int].1), action@, target@));
        let name = self.packages[idx].0.clone();
        let entry = (name, new_policy);
        proof {
            lemma_entries_map_update(mid, idx as int, entry);
        }
        self.packages.set(idx, entry);
        assert(names_of(self.packages@) =~= names_of(mid));
        assert forall|i: int| 0 <= i < self.packages@.len() implies policy_sorted(
            #[trigger] self.packages@[i].1,
        ) by {
            if i != idx {
                assert(self.packages@[i] == mid[i]);
            }
        }
    }

    /// The learned packages in increasing order of name, each with its
    /// capability lists in increasing order (as sorted maps and sets keep
    /// them).
    pub fn packages(&self) -> (r: &Vec<(String, GeneratedPolicy)>)
        requires
            self.wf(),
        ensures
            entries_map(r@) == self.policies(),
            distinct(names_of(r@)),
            sorted_strs(names_of(r@)),
            forall|i: int| 0 <= i < r@.len() ==> policy_sorted(#[trigger] r@[i].1),
    {
        &self.packages
    }
}

/// Law: learning from the same event twice is learning from it once.
pub proof fn record_event_idempotent(
    m: Map<Seq<char>, PolicySets>,
    package: Seq<char>,
    action: Seq<char>,
    target: Seq<char>,
)
    ensures
        record_event(record_event(m, package, action, target), package, action, target)
            == record_event(m, package, action, target),
{
    let m1 = record_event(m, package, action, target);
    let p = if m.contains_key(package) {
        m[package]
    } else {
        empty_sets()
    };
    let q = add_target(p, action, target);
    assert(add_target(q, action, target) =~= q) by {
        if action == "fs"@ {
            assert(q.fs.insert(target) =~= q.fs);
        } else if action == "native_addons"@ {
            assert(q.native_addons.insert(target) =~= q.native_addons);
        } else if action == "network"@ {
            assert(q.network.insert(target) =~= q.network);
        } else if action == "env"@ {
            assert(q.env.insert(target) =~= q.env);
        } else if action == "proc"@ {
            assert(q.proc.insert(target) =~= q.proc);
        }
    }
    assert(m1.insert(package, add_target(q, action, target)) =~= m1);
}

/// Law: the learned manifest does not depend on the order of the events.
pub proof fn record_event_commutes(
    m: Map<Seq<char>, PolicySets>,
    p1: Seq<char>,
    a1: Seq<char>,
    t1: Seq<char>,
    p2: Seq<char>,
    a2: Seq<char>,
    t2: Seq<char>,
)
    ensures
        record_event(record_event(m, p1, a1, t1), p2, a2, t2) == record_event(
            record_event(m, p2, a2, t2),
            p1,
            a1,
            t1,
        ),
{
    let l = record_event(record_event(m, p1, a1, t1), p2, a2, t2);
    let r = record_event(record_event(m, p2, a2, t2), p1, a1, t1);
    if p1 == p2 {
        let p = if m.contains_key(p1) {
            m[p1]
        } else {
            empty_sets()
        };
        let x = add_target(add_target(p, a1, t1), a2, t2);
        let y = add_target(add_target(p, a2, t2), a1, t1);
        assert(x =~= y) by {
            assert(x.fs =~= y.fs);
            assert(x.native_addons =~= y.native_addons);
            assert(x.network =~= y.network);
            assert(x.env =~= y.env);
            assert(x.proc =~= y.proc);
        }
        assert(l =~= r);
    } else {
        assert(l =~= r);
    }
}

/// The decimal text of a number is a non-empty run of digits that reads back
/// as the number.
proof fn lemma_decimal_reads_back(n: nat)
    ensures
        decimal_spec(n).len() > 0,
        all_digits(decimal_spec(n)),
        digits_value(decimal_spec(n)) == n,
    decreases n,
{
    let d: nat = n % 10;
    assert(d == 0 || d == 1 || d == 2 || d == 3 || d == 4 || d == 5 || d == 6 || d == 7 || d == 8
        || d == 9);
    let c = digit_char(d);
    assert('0' <= c <= '9' && c as nat - '0' as nat == d);
    if n < 10 {
        let s = decimal_spec(n);
        assert(s =~= seq![c]);
        assert(s.drop_last() =~= Seq::<char>::empty());
        assert(digits_value(s.drop_last()) == 0);
        assert(s.last() == c);
        assert(digits_value(s) == d);
        assert(d == n);
    } else {
        lemma_decimal_reads_back(n / 10);
        let prev = decimal_spec(n / 10);
        let s = decimal_spec(n);
        assert(s == prev.push(c));
        assert(s.drop_last() =~= prev);
        assert forall|i: int| 0 <= i < s.len() implies '0' <= #[trigger] s[i] <= '9' by {
            if i < prev.len() {
                assert(s[i] == prev[i]);
            }
        }
        assert(digits_value(s) == digits_value(prev) * 10 + d);
        vstd::arithmetic::div_mod::lemma_fundamental_div_mod(n as int, 10);
        assert(digits_value(prev) == n / 10);
        assert(digits_value(s) == n);
        assert(all_digits(s));
    }
}

/// A text of digits holds none of the other characters.
proof fn lemma_digits_lack(s: Seq<char>, c: char)
    requires
        all_digits(s),
        !('0' <= c <= '9'),
    ensures
        !s.contains(c),
{
    if s.contains(c) {
        let k = choose|k: int| 0 <= k < s.len() && s[k] == c;
        assert('0' <= s[k] <= '9');
    }
}

/// The port pattern of a decimal port is that single port.
proof fn lemma_decimal_port_pattern(port: u16)
    ensures
        port_ranges(decimal_spec(port as nat)) == seq![(port, port)],
{
    let t = decimal_spec(port as nat);
    lemma_decimal_reads_back(port as nat);
    assert(t != seq!['*']) by {
        if t == seq!['*'] {
            assert(t[0] == '*');
        }
    }
    lemma_digits_lack(t, ',');
    lemma_digits_lack(t, '-');
    lemma_split_no_sep(t, ',');
    assert(seq![t].drop_last() =~= Seq::<Seq<char>>::empty());
    assert(ranges_of_parts(Seq::<Seq<char>>::empty()) == Seq::<(u16, u16)>::empty());
    assert forall|i: int| !occurs_at(t, seq!['-'], i) by {
        if occurs_at(t, seq!['-'], i) {
            assert(t.subrange(i, i + 1)[0] == t[i]);
            assert(t.contains('-'));
        }
    }
    assert(find_spec(t, seq!['-']) is None);
    assert(t[0] != '+');
    assert(parse_u16_spec(t) == Some(port));
    assert(ranges_of_parts(seq![t]) =~= seq![(port, port)]);
}

/// Law: a logged network attempt, learned as a rule, allows that attempt.
/// Its audit target `action:protocol:host:port` parses as the rule for the
/// request's own action, protocol and port, targeting the host; that target
/// matches the request whenever the host names no address range and, if it is
/// an address, the request is to that address. (A host holding `:`, such as
/// an IPv6 text, splits into more fields, and the host `*` designates the IPv4
/// range; both are left out.)
pub proof fn learned_network_rule_allows(
    host: Seq<char>,
    port: u16,
    action_code: i32,
    protocol_code: i32,
    addrs: Seq<(Seq<char>, IpValue)>,
    addr: Option<IpValue>,
)
    requires
        !host.contains(':'),
        host != seq!['*'],
    ensures
        parse_rule_spec(net_target_spec(host, port, action_code, protocol_code), addrs) == Some(
            RuleView {
                action: action_of_code(action_code),
                protocol: protocol_of_code(protocol_code),
                target: target_of(host, addrs),
                ports: seq![(port, port)],
            },
        ),
        rule_applies(
            RuleView {
                action: action_of_code(action_code),
                protocol: protocol_of_code(protocol_code),
                target: target_of(host, addrs),
                ports: seq![(port, port)],
            },
            action_of_code(action_code),
            protocol_of_code(protocol_code),
            port,
        ),
        ip_net_parse(host) is None && (host_address(addrs, host) is None || addr == host_address(
            addrs,
            host,
        )) ==> target_matches(target_of(host, addrs), host, addr),
{
    reveal_strlit("bind");
    reveal_strlit("connect");
    reveal_strlit("tcp");
    reveal_strlit("udp");
    reveal_strlit("any");
    let a = action_name_spec(action_code);
    let p = protocol_name_spec(protocol_code);
    let d = decimal_spec(port as nat);
    lemma_decimal_reads_back(port as nat);
    lemma_digits_lack(d, ':');
    assert(!a.contains(':')) by {
        if a.contains(':') {
            let k = choose|k: int| 0 <= k < a.len() && a[k] == ':';
        }
    }
    assert(!p.contains(':')) by {
        if p.contains(':') {
            let k = choose|k: int| 0 <= k < p.len() && p[k] == ':';
        }
    }
    let xs = seq![a, p, host, d];
    assert(xs.drop_last() =~= seq![a, p, host]);
    assert(seq![a, p, host].drop_last() =~= seq![a, p]);
    assert(seq![a, p].drop_last() =~= seq![a]);
    assert(join_spec(seq![a], ':') == a);
    assert(join_spec(seq![a, p], ':') == a.push(':') + p);
    assert(join_spec(seq![a, p, host], ':') == (a.push(':') + p).push(':') + host);
    assert(join_spec(xs, ':') == ((a.push(':') + p).push(':') + host).push(':') + d);
    assert(net_target_spec(host, port, action_code, protocol_code) =~= join_spec(xs, ':'));
    lemma_split_join(xs, ':');
    lemma_decimal_port_pattern(port);
    let t = net_target_spec(host, port, action_code, protocol_code);
    assert(split_spec(t, ':') == xs);
    assert(split_spec(t, ':').len() == 4);
    assert(rule_fields(t) == Some((a, p, host, d)));
    assert(action_named(a) == Some(action_of_code(action_code)));
    assert(protocol_named(p) == Some(protocol_of_code(protocol_code))) by {
        assert("udp"@[0] != "tcp"@[0]);
        assert("any"@[0] != "tcp"@[0]);
        assert("any"@[0] != "udp"@[0]);
        assert("any"@.len() != seq!['*'].len());
    }
    assert(port_ranges(d) == seq![(port, port)]);
    assert(port_in(seq![(port, port)], port)) by {
        assert(seq![(port, port)][0] == (port, port));
    }
    if ip_net_parse(host) is None && (host_address(addrs, host) is None || addr == host_address(
        addrs,
        host,
    )) {
        match host_address(addrs, host) {
            Some(x) => {
                vstd::arithmetic::power2::lemma2_to64();
                assert(net_contains(host_net(x), x));
            },
            None => {
                if has_prefix(host, seq!['*', '.']) {
                    assert(host.skip(host.len() - host.skip(1).len()) =~= host.skip(1));
                    assert(has_suffix(host, host.skip(1)));
                }
            },
        }
    }
}

/// Law: other logged attempts, learned as entries of the attempting package,
/// are allowed by those entries: an environment key by itself, an executable
/// whose path holds no `*` by itself (both sides are normalized), and a
/// native addon by its own path.
pub proof fn learned_entries_allow(
    rules: Map<Seq<char>, (Seq<Seq<char>>, Seq<Seq<char>>)>,
    addons: Map<Seq<char>, Seq<Seq<char>>>,
    package: Seq<char>,
    key: Seq<char>,
    binary: Seq<char>,
    addon: Seq<char>,
)
    ensures
        rules.contains_key(package) && rules[package].0.contains(key) ==> env_allowed(
            rules,
            package,
            key,
        ),
        rules.contains_key(package) && rules[package].1.contains(binary) && !binary.contains('*')
            ==> proc_allowed(rules, package, binary),
        addons.contains_key(package) && addons[package].contains(addon) ==> dlopen_allowed(
            addons,
            package,
            addon,
        ),
{
    if rules.contains_key(package) && rules[package].0.contains(key) {
        let i = choose|i: int| 0 <= i < rules[package].0.len() && rules[package].0[i] == key;
        if key.len() > 0 && key.last() == '*' && key != seq!['*'] {
            assert(key.take(key.drop_last().len() as int) =~= key.drop_last());
        }
        assert(pattern_matches(rules[package].0[i], key));
    }
    if rules.contains_key(package) && rules[package].1.contains(binary) && !binary.contains('*') {
        let i = choose|i: int| 0 <= i < rules[package].1.len() && rules[package].1[i] == binary;
        let n = normalize_spec(binary);
        assert(proc_pattern_form(binary) == n);
        if n.len() > 0 && n.last() == '*' && n != seq!['*'] {
            assert(n.take(n.drop_last().len() as int) =~= n.drop_last());
        }
        assert(pattern_matches(proc_pattern_form(rules[package].1[i]), n));
    }
    if addons.contains_key(package) && addons[package].contains(addon) {
        let i = choose|i: int| 0 <= i < addons[package].len() && addons[package][i] == addon;
        assert(addon.skip(0) =~= addon);
        assert(has_suffix(addon, addons[package][i]));
    }
}

/// A rule text among a package's texts gives its rule among the package's
/// rules.
proof fn lemma_rule_of_text_kept(
    texts: Seq<Seq<char>>,
    i: int,
    addrs: Seq<(Seq<char>, IpValue)>,
    r: RuleView,
)
    requires
        0 <= i < texts.len(),
        parse_rule_spec(texts[i], addrs) == Some(r),
    ensures
        parse_rules_spec(texts, addrs).contains(r),
{
    let a = texts.take(i);
    let t = seq![texts[i]];
    let b = texts.skip(i + 1);
    assert(texts =~= a + t + b);
    parse_rules_concat(a + t, b, addrs);
    parse_rules_concat(a, t, addrs);
    assert(t.drop_last() =~= Seq::<Seq<char>>::empty());
    assert(t.last() == texts[i]);
    assert(parse_rules_spec(Seq::<Seq<char>>::empty(), addrs) == Seq::<RuleView>::empty());
    assert(Seq::<RuleView>::empty().push(r) =~= seq![r]);
    assert(parse_rules_spec(t, addrs) == seq![r]);
    let pa = parse_rules_spec(a, addrs);
    assert((pa + seq![r] + parse_rules_spec(b, addrs))[pa.len() as int] == r);
}

/// Law: a package whose rules include `connect:*:domain:port` may connect,
/// on that port and any protocol, to an address a registered resolution of
/// that domain gave, until the entry expires. (The domain holds neither `:`
/// nor `*`, and is no address range or listed address.)
pub proof fn connect_rule_admits_registered_address(
    texts: Seq<Seq<char>>,
    addrs: Seq<(Seq<char>, IpValue)>,
    dns: Map<Seq<char>, Seq<(Seq<char>, Seq<char>, u64)>>,
    keys: Seq<Seq<char>>,
    domain: Seq<char>,
    port: u16,
    package: Seq<char>,
    ttl: u32,
    now: u64,
    host: Seq<char>,
    addr: IpValue,
    ip_key: Seq<char>,
    action_code: i32,
    protocol_code: i32,
    later: u64,
)
    requires
        texts.contains("connect"@ + seq![':', '*', ':'] + domain + seq![':'] + decimal_spec(port as nat)),
        !domain.contains(':'),
        !domain.contains('*'),
        keys.contains(ip_key),
        action_code != 1,
        now <= u64::MAX - 3_600_000,
        later < dns_expiry(ttl, now),
    ensures
        ip_net_parse(domain) is None && host_address(addrs, domain) is None ==> net_verdict(
            Map::<Seq<char>, Seq<RuleView>>::empty().insert(package, parse_rules_spec(texts, addrs)),
            dns_after(dns, keys, (domain, package, dns_expiry(ttl, now) as u64)),
            package,
            host,
            Some((addr, ip_key)),
            port,
            action_code,
            protocol_code,
            later,
        ) == VerdictView::Allowed,
{
    if ip_net_parse(domain) is None && host_address(addrs, domain) is None {
        let d = decimal_spec(port as nat);
        lemma_decimal_reads_back(port as nat);
        lemma_digits_lack(d, ':');
        lemma_connect_any_fields(domain, d);
        lemma_decimal_port_pattern(port);
        reveal_strlit("connect");
        let text = "connect"@ + seq![':', '*', ':'] + domain + seq![':'] + d;
        assert(domain != seq!['*']) by {
            if domain == seq!['*'] {
                assert(domain[0] == '*');
            }
        }
        let r = RuleView {
            action: NetAction::Connect,
            protocol: NetProtocol::Any,
            target: TargetView::Domain(domain),
            ports: seq![(port, port)],
        };
        reveal_strlit("bind");
        reveal_strlit("tcp");
        reveal_strlit("udp");
        assert("connect"@[0] != "bind"@[0]);
        assert(action_named("connect"@) == Some(NetAction::Connect));
        assert(seq!['*'].len() != "tcp"@.len());
        assert(seq!['*'].len() != "udp"@.len());
        assert(protocol_named(seq!['*']) == Some(NetProtocol::Any));
        assert(target_of(domain, addrs) == TargetView::Domain(domain));
        assert(port_ranges(d) == seq![(port, port)]);
        assert(parse_rule_spec(text, addrs) == Some(r));
        let i = choose|i: int| 0 <= i < texts.len() && texts[i] == text;
        lemma_rule_of_text_kept(texts, i, addrs, r);
        let rs = parse_rules_spec(texts, addrs);
        let k = choose|k: int| 0 <= k < rs.len() && rs[k] == r;
        assert(port_in(seq![(port, port)], port)) by {
            assert(seq![(port, port)][0] == (port, port));
        }
        assert(rule_applies(rs[k], action_of_code(action_code), protocol_of_code(protocol_code), port));
        assert(rules_allow_domain(rs, domain, action_of_code(action_code), protocol_of_code(protocol_code), port));
        let rules = Map::<Seq<char>, Seq<RuleView>>::empty().insert(package, rs);
        registered_resolution_allows(
            rules,
            dns,
            keys,
            domain,
            package,
            ttl,
            now,
            host,
            addr,
            ip_key,
            port,
            action_code,
            protocol_code,
            later,
        );
    }
}

} // verus!
