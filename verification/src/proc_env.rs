//! Environment-variable and child-process capabilities.

use vstd::prelude::*;
use vstd::hash_map::StringHashMap;
use crate::paths::{normalize_path, normalize_spec};
use crate::policy::{
    copy_strings, package_map, root_name, root_package, strings_view, PackagePolicy,
};
use crate::text::{chars_contains, chars_eq, chars_starts_with, has_prefix, to_chars};

verus! {

struct ProcEnvRules {
    allowed_env: Vec<String>,
    allowed_proc: Vec<String>,
}

/// Decides which environment keys a package may change and which
/// executables it may run.
pub struct ProcEnvManager {
    package_rules: StringHashMap<ProcEnvRules>,
}

/// A pattern matches a text when it is `*`, when it ends in `*` and the text
/// starts with what precedes the `*`, or when the two are equal.
pub open spec fn pattern_matches(pattern: Seq<char>, target: Seq<char>) -> bool {
    if pattern == seq!['*'] {
        true
    } else if pattern.len() > 0 && pattern.last() == '*' {
        has_prefix(target, pattern.drop_last())
    } else {
        pattern == target
    }
}

/// The form in which an executable pattern is compared: patterns with a `*`
/// as written, others normalized.
pub open spec fn proc_pattern_form(pattern: Seq<char>) -> Seq<char> {
    if pattern.contains('*') {
        pattern
    } else {
        normalize_spec(pattern)
    }
}

/// The environment and executable patterns of each package of a manifest.
pub open spec fn proc_env_rules_of(entries: Seq<(String, PackagePolicy)>) -> Map<
    Seq<char>,
    (Seq<Seq<char>>, Seq<Seq<char>>),
> {
    package_map(entries).map_values(
        |p: PackagePolicy| (strings_view(p.env@), strings_view(p.proc@)),
    )
}

/// Whether `package` may change the environment key `key` under `rules`.
pub open spec fn env_allowed(
    rules: Map<Seq<char>, (Seq<Seq<char>>, Seq<Seq<char>>)>,
    package: Seq<char>,
    key: Seq<char>,
) -> bool {
    if package == root_package() {
        true
    } else if !rules.contains_key(package) {
        false
    } else {
        exists|i: int|
            0 <= i < rules[package].0.len() && pattern_matches(
                #[trigger] rules[package].0[i],
                key,
            )
    }
}

/// Whether `package` may execute `binary` under `rules`.
pub open spec fn proc_allowed(
    rules: Map<Seq<char>, (Seq<Seq<char>>, Seq<Seq<char>>)>,
    package: Seq<char>,
    binary: Seq<char>,
) -> bool {
    if package == root_package() {
        true
    } else if !rules.contains_key(package) {
        false
    } else {
        exists|i: int|
            0 <= i < rules[package].1.len() && pattern_matches(
                proc_pattern_form(#[trigger] rules[package].1[i]),
                normalize_spec(binary),
            )
    }
}

/// Law: the `root` package may execute every binary and change every
/// environment key, whatever the rules, and whether or not `root` has an
/// entry of its own.
pub proof fn root_may_run_and_set_anything(
    rules: Map<Seq<char>, (Seq<Seq<char>>, Seq<Seq<char>>)>,
    binary: Seq<char>,
    key: Seq<char>,
)
    ensures
        proc_allowed(rules, seq!['r', 'o', 'o', 't'], binary),
        env_allowed(rules, seq!['r', 'o', 'o', 't'], key),
{
}

/// Law: any other package may execute a binary only when it has an entry
/// with a pattern (normalized unless it holds `*`) that is `*`, is a prefix
/// followed by `*` of the normalized binary, or equals it; and may change an
/// environment key only when it has an entry with a pattern that is `*`, a
/// prefix of the key followed by `*`, or the key itself.
pub proof fn other_packages_need_a_matching_pattern(
    rules: Map<Seq<char>, (Seq<Seq<char>>, Seq<Seq<char>>)>,
    package: Seq<char>,
    binary: Seq<char>,
    key: Seq<char>,
)
    requires
        package != seq!['r', 'o', 'o', 't'],
    ensures
        proc_allowed(rules, package, binary) <==> rules.contains_key(package) && exists|i: int|
            0 <= i < rules[package].1.len() && ({
                let q = if (#[trigger] rules[package].1[i]).contains('*') {
                    rules[package].1[i]
                } else {
                    normalize_spec(rules[package].1[i])
                };
                let b = normalize_spec(binary);
                q == seq!['*'] || (q.len() > 0 && q.last() == '*' && q.len() - 1 <= b.len()
                    && b.subrange(0, q.len() - 1) == q.subrange(0, q.len() - 1)) || q == b
            }),
        env_allowed(rules, package, key) <==> rules.contains_key(package) && exists|i: int|
            0 <= i < rules[package].0.len() && ({
                let q = #[trigger] rules[package].0[i];
                q == seq!['*'] || (q.len() > 0 && q.last() == '*' && q.len() - 1 <= key.len()
                    && key.subrange(0, q.len() - 1) == q.subrange(0, q.len() - 1)) || q == key
            }),
{
    if rules.contains_key(package) {
        let ps = rules[package].1;
        let b = normalize_spec(binary);
        assert forall|i: int| 0 <= i < ps.len() implies pattern_matches(proc_pattern_form(#[trigger] ps[i]), b)
            == ({
                let q = if ps[i].contains('*') {
                    ps[i]
                } else {
                    normalize_spec(ps[i])
                };
                q == seq!['*'] || (q.len() > 0 && q.last() == '*' && q.len() - 1 <= b.len()
                    && b.subrange(0, q.len() - 1) == q.subrange(0, q.len() - 1)) || q == b
            }) by {
            let q = proc_pattern_form(ps[i]);
            if q.len() > 0 && q.last() == '*' && q.len() - 1 <= b.len() {
                assert(q.drop_last() =~= q.subrange(0, q.len() - 1));
                assert(b.take(q.drop_last().len() as int) =~= b.subrange(0, q.len() - 1));
            }
        }
        let es = rules[package].0;
        assert forall|i: int| 0 <= i < es.len() implies pattern_matches(#[trigger] es[i], key) == ({
            let q = es[i];
            q == seq!['*'] || (q.len() > 0 && q.last() == '*' && q.len() - 1 <= key.len()
                && key.subrange(0, q.len() - 1) == q.subrange(0, q.len() - 1)) || q == key
        }) by {
            let q = es[i];
            if q.len() > 0 && q.last() == '*' && q.len() - 1 <= key.len() {
                assert(q.drop_last() =~= q.subrange(0, q.len() - 1));
                assert(key.take(q.drop_last().len() as int) =~= key.subrange(0, q.len() - 1));
            }
        }
    }
}

impl ProcEnvManager {
    /// The environment and executable patterns of each package.
    pub closed spec fn rules(&self) -> Map<Seq<char>, (Seq<Seq<char>>, Seq<Seq<char>>)> {
        self.package_rules@.map_values(
            |r: ProcEnvRules| (strings_view(r.allowed_env@), strings_view(r.allowed_proc@)),
        )
    }

    /// Takes each package's `env` and `proc` lists from the manifest entries.
    pub fn new(packages: &Vec<(String, PackagePolicy)>) -> (r: Self)
        ensures
            r.rules() == proc_env_rules_of(packages@),
    {
        let mut package_rules: StringHashMap<ProcEnvRules> = StringHashMap::new();
        for i in 0..packages.len()
            invariant
                package_rules@.map_values(
                    |r: ProcEnvRules| (strings_view(r.allowed_env@), strings_view(r.allowed_proc@)),
                ) == proc_env_rules_of(packages@.take(i as int)),
        {
            let ghost before = package_rules@;
            let (name, policy) = &packages[i];
            let rules = ProcEnvRules {
                allowed_env: copy_strings(&policy.env),
                allowed_proc: copy_strings(&policy.proc),
            };
            package_rules.insert(name.clone(), rules);
            let ghost prefix = packages@.take(i + 1);
            assert(prefix.drop_last() =~= packages@.take(i as int));
            assert(prefix.last() == packages@[i as int]);
            assert(package_map(prefix) == package_map(packages@.take(i as int)).insert(
                name@,
                *policy,
            ));
            assert(strings_view(rules.allowed_env@) == strings_view(policy.env@));
            assert(strings_view(rules.allowed_proc@) == strings_view(policy.proc@));
            assert(package_rules@ == before.insert(name@, rules));
            let ghost m_old = package_map(packages@.take(i as int));
            assert forall|x: Seq<char>| #[trigger] package_rules@.contains_key(x) implies (
            strings_view(package_rules@[x].allowed_env@),
            strings_view(package_rules@[x].allowed_proc@),
            ) == (strings_view(package_map(prefix)[x].env@), strings_view(
                package_map(prefix)[x].proc@,
            )) by {
                if x != name@ {
                    assert(before.contains_key(x));
                    assert(before.map_values(
                        |r: ProcEnvRules|
                            (strings_view(r.allowed_env@), strings_view(r.allowed_proc@)),
                    )[x] == proc_env_rules_of(packages@.take(i as int))[x]);
                }
            }
            assert(package_rules@.dom() =~= package_map(prefix).dom()) by {
                assert(before.map_values(
                    |r: ProcEnvRules| (strings_view(r.allowed_env@), strings_view(r.allowed_proc@)),
                ).dom() == before.dom());
                assert(m_old.map_values(
                    |p: PackagePolicy| (strings_view(p.env@), strings_view(p.proc@)),
                ).dom() == m_old.dom());
            }
            assert(package_rules@.map_values(
                |r: ProcEnvRules| (strings_view(r.allowed_env@), strings_view(r.allowed_proc@)),
            ) =~= proc_env_rules_of(prefix));
        }
        assert(packages@.take(packages.len() as int) =~= packages@);
        ProcEnvManager { package_rules }
    }

    /// Whether `package_name` may set or change the environment key `key`:
    /// the root package always may; a package without rules never may.
    pub fn is_env_allowed(&self, package_name: &str, key: &str) -> (r: bool)
        ensures
            r == env_allowed(self.rules(), package_name@, key@),
    {
        let pkg = to_chars(package_name);
        if chars_eq(&pkg, &root_name()) {
            return true;
        }
        let rules = match self.package_rules.get(package_name) {
            Some(r) => r,
            None => return false,
        };
        let key_chars = to_chars(key);
        let ghost pats = strings_view(rules.allowed_env@);
        assert(self.rules().contains_key(package_name@));
        assert(pats == self.rules()[package_name@].0);
        for i in 0..rules.allowed_env.len()
            invariant
                pats == strings_view(rules.allowed_env@),
                self.rules().contains_key(package_name@),
                pats == self.rules()[package_name@].0,
                key_chars@ == key@,
                forall|j: int| 0 <= j < i ==> !pattern_matches(#[trigger] pats[j], key@),
        {
            let pattern = to_chars(rules.allowed_env[i].as_str());
            assert(pattern@ == pats[i as int]);
            if match_pattern(&pattern, &key_chars) {
                assert(pattern_matches(self.rules()[package_name@].0[i as int], key@));
                return true;
            }
        }
        false
    }

    /// Whether `package_name` may execute `binary`: the root package always
    /// may; a package without rules never may; otherwise the normalized binary
    /// path must match one of the package's patterns.
    pub fn is_proc_allowed(&self, package_name: &str, binary: &str) -> (r: bool)
        ensures
            r == proc_allowed(self.rules(), package_name@, binary@),
    {
        let pkg = to_chars(package_name);
        if chars_eq(&pkg, &root_name()) {
            return true;
        }
        let normalized_binary = to_chars(normalize_path(binary).as_str());
        let rules = match self.package_rules.get(package_name) {
            Some(r) => r,
            None => return false,
        };
        let ghost pats = strings_view(rules.allowed_proc@);
        assert(self.rules().contains_key(package_name@));
        assert(pats == self.rules()[package_name@].1);
        for i in 0..rules.allowed_proc.len()
            invariant
                pats == strings_view(rules.allowed_proc@),
                self.rules().contains_key(package_name@),
                pats == self.rules()[package_name@].1,
                normalized_binary@ == normalize_spec(binary@),
                forall|j: int|
                    0 <= j < i ==> !pattern_matches(
                        proc_pattern_form(#[trigger] pats[j]),
                        normalize_spec(binary@),
                    ),
        {
            let pattern = to_chars(rules.allowed_proc[i].as_str());
            assert(pattern@ == pats[i as int]);
            let normalized_pattern = if chars_contains(&pattern, '*') {
                pattern
            } else {
                to_chars(normalize_path(rules.allowed_proc[i].as_str()).as_str())
            };
            assert(normalized_pattern@ == proc_pattern_form(pats[i as int]));
            if match_pattern(&normalized_pattern, &normalized_binary) {
                assert(pattern_matches(
                    proc_pattern_form(self.rules()[package_name@].1[i as int]),
                    normalize_spec(binary@),
                ));
                return true;
            }
        }
        false
    }
}

/// Whether `pattern` matches `target` (see [`pattern_matches`]).
fn match_pattern(pattern: &Vec<char>, target: &Vec<char>) -> (r: bool)
    ensures
        r == pattern_matches(pattern@, target@),
{
    if pattern.len() == 1 && pattern[0] == '*' {
        assert(pattern@ =~= seq!['*']);
        return true;
    }
    assert(pattern@ != seq!['*']);
    if pattern.len() > 0 && pattern[pattern.len() - 1] == '*' {
        let mut prefix = pattern.clone();
        prefix.pop();
        assert(prefix@ =~= pattern@.drop_last());
        return chars_starts_with(target, &prefix);
    }
    chars_eq(pattern, target)
}

} // verus!
