//! Filesystem capabilities: per-package glob rules over absolute and
//! project-relative paths, always-readable system locations, and spoofed
//! files whose reads are redirected to mock data.

use vstd::prelude::*;
use vstd::hash_map::StringHashMap;
use globset::{Glob, GlobSet, GlobSetBuilder};
use crate::paths::{normalize_path, normalize_spec, path_join, push_spec, strip_prefix, strip_prefix_spec, is_absolute_spec};
use crate::policy::{root_name, root_package, spoof_map, strings_view, PackagePolicy};
use crate::text::{chars_concat, chars_eq, chars_slice, chars_starts_with, from_chars, has_prefix, to_chars};

verus! {

#[verifier::external_type_specification]
#[verifier::external_body]
pub struct ExGlobSet(GlobSet);

#[verifier::external_type_specification]
#[verifier::external_body]
pub struct ExGlobSetBuilder(GlobSetBuilder);

/// Whether `Glob::new` accepts the pattern.
pub uninterp spec fn glob_compiles(pattern: Seq<char>) -> bool;

/// Whether the glob `pattern` (default options) matches the path text.
pub uninterp spec fn glob_matches(pattern: Seq<char>, path: Seq<char>) -> bool;

/// Whether `GlobSetBuilder::build` succeeds for these patterns.
pub uninterp spec fn glob_set_builds(patterns: Seq<Seq<char>>) -> bool;

/// The patterns added to a builder, in order.
pub uninterp spec fn builder_patterns(b: GlobSetBuilder) -> Seq<Seq<char>>;

/// The patterns of a glob set, in order.
pub uninterp spec fn glob_set_patterns(s: GlobSet) -> Seq<Seq<char>>;

/// An empty builder (`GlobSetBuilder::new`). The contract claims it holds no
/// pattern.
#[verifier::external_body]
fn glob_set_builder() -> (b: GlobSetBuilder)
    ensures
        builder_patterns(b) == Seq::<Seq<char>>::empty(),
{
    GlobSetBuilder::new()
}

/// Compiles `pattern` (`Glob::new`) and, when that succeeds, adds the glob to
/// the builder (`GlobSetBuilder::add`). The contract claims the glob is added
/// exactly when it compiles, after the ones already there.
#[verifier::external_body]
fn glob_set_builder_add(b: &mut GlobSetBuilder, pattern: &str) -> (added: bool)
    ensures
        added == glob_compiles(pattern@),
        builder_patterns(*final(b)) == if added {
            builder_patterns(*old(b)).push(pattern@)
        } else {
            builder_patterns(*old(b))
        },
{
    match Glob::new(pattern) {
        Ok(glob) => {
            b.add(glob);
            true
        },
        Err(_) => false,
    }
}

/// Builds the set (`GlobSetBuilder::build`). The contract claims the result
/// is `None` exactly when the named build fails, and otherwise holds the
/// builder's patterns.
#[verifier::external_body]
fn glob_set_build(b: &GlobSetBuilder) -> (r: Option<GlobSet>)
    ensures
        r is Some == glob_set_builds(builder_patterns(*b)),
        r matches Some(s) ==> glob_set_patterns(s) == builder_patterns(*b),
{
    b.build().ok()
}

/// Whether any glob of the set matches the path (`GlobSet::is_match`, which
/// the crate documents as "true if any glob in this set matches the path").
#[verifier::external_body]
fn glob_set_is_match(s: &GlobSet, path: &str) -> (matched: bool)
    ensures
        matched == (exists|i: int| 0 <= i < glob_set_patterns(*s).len() && glob_matches(glob_set_patterns(*s)[i], path@)),
{
    s.is_match(path)
}

/// Some pattern of the list matches the path.
pub open spec fn glob_any(patterns: Seq<Seq<char>>, path: Seq<char>) -> bool {
    exists|i: int| 0 <= i < patterns.len() && glob_matches(#[trigger] patterns[i], path)
}

/// The absolute glob pattern of a file rule: a `read:` rule's pattern, made
/// absolute against the project root when it is relative (a leading `./` is
/// dropped first); other rules give none.
pub open spec fn rule_pattern(rule: Seq<char>, root: Seq<char>) -> Option<Seq<char>> {
    if has_prefix(rule, "read:"@) {
        let p = rule.skip("read:"@.len() as int);
        Some(
            if has_prefix(p, seq!['/']) {
                p
            } else if has_prefix(p, seq!['.', '/']) {
                push_spec(root, p.skip(2))
            } else {
                push_spec(root, p)
            },
        )
    } else {
        None
    }
}

/// The patterns of a package's file rules that compile, in order.
pub open spec fn compiled_patterns(rules: Seq<Seq<char>>, root: Seq<char>) -> Seq<Seq<char>>
    decreases rules.len(),
{
    if rules.len() == 0 {
        Seq::empty()
    } else {
        let prev = compiled_patterns(rules.drop_last(), root);
        match rule_pattern(rules.last(), root) {
            Some(p) => if glob_compiles(p) {
                prev.push(p)
            } else {
                prev
            },
            None => prev,
        }
    }
}

/// The glob patterns of each package of a manifest: a package whose set
/// does not build gets no entry (an earlier entry of the same name stays).
pub open spec fn fs_rules_of(entries: Seq<(String, PackagePolicy)>, root: Seq<char>) -> Map<
    Seq<char>,
    Seq<Seq<char>>,
>
    decreases entries.len(),
{
    if entries.len() == 0 {
        Map::empty()
    } else {
        let prev = fs_rules_of(entries.drop_last(), root);
        let pats = compiled_patterns(strings_view(entries.last().1.fs@), root);
        if glob_set_builds(pats) {
            prev.insert(entries.last().0@, pats)
        } else {
            prev
        }
    }
}

/// Locations every package may read: system configuration, libraries and
/// the kernel's pseudo-filesystems.
pub open spec fn is_system_path(n: Seq<char>) -> bool {
    ||| has_prefix(n, "/data/data/com.termux/files/usr/etc/"@)
    ||| has_prefix(n, "/proc/"@)
    ||| has_prefix(n, "/sys/"@)
    ||| has_prefix(n, "/dev/"@)
    ||| n == "/etc/hosts"@
    ||| n == "/etc/resolv.conf"@
    ||| has_prefix(n, "/data/data/com.termux/files/usr/lib/"@)
    ||| has_prefix(n, "/usr/lib/"@)
    ||| has_prefix(n, "/usr/share/"@)
    ||| has_prefix(n, "/lib/"@)
    ||| has_prefix(n, "/lib64/"@)
    ||| has_prefix(n, "/etc/ssl/"@)
    ||| has_prefix(n, "/etc/pki/"@)
}

/// The absolute form of a requested path: itself when absolute, otherwise
/// joined to the project root.
pub open spec fn absolute_of(requested: Seq<char>, root: Seq<char>) -> Seq<char> {
    if is_absolute_spec(requested) {
        requested
    } else {
        push_spec(root, requested)
    }
}

/// The path relative to the project root used for relative rules: the
/// lexical remainder after the root; failing that, the remainder of the
/// canonical path after the canonical root (when both are known); failing
/// that, the normalized path.
pub open spec fn relative_of(
    abs: Seq<char>,
    root: Seq<char>,
    canonical: Option<(Seq<char>, Seq<char>)>,
) -> Seq<char> {
    match strip_prefix_spec(abs, root) {
        Some(r) => r,
        None => match canonical {
            Some(c) => match strip_prefix_spec(c.0, c.1) {
                Some(r) => r,
                None => normalize_spec(abs),
            },
            None => normalize_spec(abs),
        },
    }
}

/// Whether `package` may read `requested`: system locations always; else,
/// for a package with rules, when a pattern matches the normalized absolute
/// path or the path relative to the project root; a package without rules
/// only if it is the root package.
pub open spec fn fs_allowed(
    rules: Map<Seq<char>, Seq<Seq<char>>>,
    root: Seq<char>,
    package: Seq<char>,
    requested: Seq<char>,
    canonical: Option<(Seq<char>, Seq<char>)>,
) -> bool {
    let abs = absolute_of(requested, root);
    let n = normalize_spec(abs);
    if is_system_path(n) {
        true
    } else if rules.contains_key(package) {
        glob_any(rules[package], n) || glob_any(rules[package], relative_of(abs, root, canonical))
    } else {
        package == root_package()
    }
}

/// The file name of the mock data for a spoofed path: the path with every
/// `/` replaced by `_`, after the prefix `.astraea_spoof_`.
pub open spec fn spoof_file_name(path: Seq<char>) -> Seq<char> {
    ".astraea_spoof_"@ + path.map_values(|c: char| if c == '/' { '_' } else { c })
}

/// Law: every package, whatever its rules and whether or not it has any,
/// may read the system locations: a path whose normalized absolute form
/// `n` starts with one of the system directories below, or is `/etc/hosts`
/// or `/etc/resolv.conf`.
pub proof fn system_locations_are_readable(
    rules: Map<Seq<char>, Seq<Seq<char>>>,
    root: Seq<char>,
    package: Seq<char>,
    requested: Seq<char>,
    canonical: Option<(Seq<char>, Seq<char>)>,
    n: Seq<char>,
)
    requires
        n == normalize_spec(absolute_of(requested, root)),
    ensures
        n.len() >= 36 && n.subrange(0, 36) == "/data/data/com.termux/files/usr/etc/"@ ==> fs_allowed(rules, root, package, requested, canonical),
        n.len() >= 6 && n.subrange(0, 6) == "/proc/"@ ==> fs_allowed(rules, root, package, requested, canonical),
        n.len() >= 5 && n.subrange(0, 5) == "/sys/"@ ==> fs_allowed(rules, root, package, requested, canonical),
        n.len() >= 5 && n.subrange(0, 5) == "/dev/"@ ==> fs_allowed(rules, root, package, requested, canonical),
        n.len() >= 36 && n.subrange(0, 36) == "/data/data/com.termux/files/usr/lib/"@ ==> fs_allowed(rules, root, package, requested, canonical),
        n.len() >= 9 && n.subrange(0, 9) == "/usr/lib/"@ ==> fs_allowed(rules, root, package, requested, canonical),
        n.len() >= 11 && n.subrange(0, 11) == "/usr/share/"@ ==> fs_allowed(rules, root, package, requested, canonical),
        n.len() >= 5 && n.subrange(0, 5) == "/lib/"@ ==> fs_allowed(rules, root, package, requested, canonical),
        n.len() >= 7 && n.subrange(0, 7) == "/lib64/"@ ==> fs_allowed(rules, root, package, requested, canonical),
        n.len() >= 9 && n.subrange(0, 9) == "/etc/ssl/"@ ==> fs_allowed(rules, root, package, requested, canonical),
        n.len() >= 9 && n.subrange(0, 9) == "/etc/pki/"@ ==> fs_allowed(rules, root, package, requested, canonical),
        n == "/etc/hosts"@ ==> fs_allowed(rules, root, package, requested, canonical),
        n == "/etc/resolv.conf"@ ==> fs_allowed(rules, root, package, requested, canonical),
{
}

/// Law: the mock file of a spoofed path is a plain file name in the working
/// directory: it holds no `/` and is neither `.` nor `..`, whatever the path.
pub proof fn spoof_name_is_plain_file(path: Seq<char>)
    ensures
        !spoof_file_name(path).contains('/'),
        spoof_file_name(path) != seq!['.'],
        spoof_file_name(path) != seq!['.', '.'],
{
    reveal_strlit(".astraea_spoof_");
    let prefix = ".astraea_spoof_"@;
    let body = path.map_values(|c: char| if c == '/' { '_' } else { c });
    let n = spoof_file_name(path);
    assert(n.len() == prefix.len() + body.len());
    assert forall|k: int| 0 <= k < n.len() implies n[k] != '/' by {
        if k < prefix.len() {
            assert(n[k] == prefix[k]);
        } else {
            assert(n[k] == body[k - prefix.len()]);
        }
    }
}

/// The plain values of a pair of canonical paths.
pub open spec fn canonical_view(c: Option<(String, String)>) -> Option<(Seq<char>, Seq<char>)> {
    match c {
        Some(p) => Some((p.0@, p.1@)),
        None => None,
    }
}

/// Decides which files each package may read and which reads are spoofed.
pub struct FsManager {
    package_rules: StringHashMap<GlobSet>,
    spoofs: StringHashMap<String>,
    project_root: String,
}

/// Whether the normalized path is a system location (see [`is_system_path`]).
fn system_path(n: &Vec<char>) -> (r: bool)
    ensures
        r == is_system_path(n@),
{
    chars_starts_with(n, &to_chars("/data/data/com.termux/files/usr/etc/"))
        || chars_starts_with(n, &to_chars("/proc/")) || chars_starts_with(n, &to_chars("/sys/"))
        || chars_starts_with(n, &to_chars("/dev/")) || chars_eq(n, &to_chars("/etc/hosts"))
        || chars_eq(n, &to_chars("/etc/resolv.conf")) || chars_starts_with(
        n,
        &to_chars("/data/data/com.termux/files/usr/lib/"),
    ) || chars_starts_with(n, &to_chars("/usr/lib/")) || chars_starts_with(
        n,
        &to_chars("/usr/share/"),
    ) || chars_starts_with(n, &to_chars("/lib/")) || chars_starts_with(n, &to_chars("/lib64/"))
        || chars_starts_with(n, &to_chars("/etc/ssl/")) || chars_starts_with(
        n,
        &to_chars("/etc/pki/"),
    )
}

/// The absolute glob pattern of a file rule (see [`rule_pattern`]).
fn pattern_of_rule(rule: &Vec<char>, root: &Vec<char>) -> (r: Option<Vec<char>>)
    ensures
        match r {
            Some(p) => rule_pattern(rule@, root@) == Some(p@),
            None => rule_pattern(rule@, root@) is None,
        },
{
    let read = to_chars("read:");
    if !chars_starts_with(rule, &read) {
        return None;
    }
    let p = chars_slice(rule, read.len(), rule.len());
    assert(p@ =~= rule@.skip(read@.len() as int));
    let slash: Vec<char> = vec!['/'];
    assert(slash@ =~= seq!['/']);
    let dot_slash: Vec<char> = vec!['.', '/'];
    assert(dot_slash@ =~= seq!['.', '/']);
    if chars_starts_with(&p, &slash) {
        Some(p)
    } else if chars_starts_with(&p, &dot_slash) {
        let rest = chars_slice(&p, 2, p.len());
        assert(rest@ =~= p@.skip(2));
        Some(path_join(root, &rest))
    } else {
        Some(path_join(root, &p))
    }
}

impl FsManager {
    /// The glob patterns of each package.
    pub closed spec fn rules(&self) -> Map<Seq<char>, Seq<Seq<char>>> {
        self.package_rules@.map_values(|s: GlobSet| glob_set_patterns(s))
    }

    /// The spoofed paths and their mock contents.
    pub closed spec fn spoofs(&self) -> Map<Seq<char>, Seq<char>> {
        self.spoofs@.map_values(|s: String| s@)
    }

    /// The project root against which relative paths and rules are read.
    pub closed spec fn root(&self) -> Seq<char> {
        self.project_root@
    }

    /// Compiles each package's `read:` rules against `project_root` (see
    /// [`fs_rules_of`]) and records the spoofed paths.
    pub fn new(
        packages: &Vec<(String, PackagePolicy)>,
        spoofs: &Vec<(String, String)>,
        project_root: String,
    ) -> (r: Self)
        ensures
            r.rules() == fs_rules_of(packages@, project_root@),
            r.spoofs() == spoof_map(spoofs@),
            r.root() == project_root@,
    {
        let root = to_chars(project_root.as_str());
        let mut package_rules: StringHashMap<GlobSet> = StringHashMap::new();
        for i in 0..packages.len()
            invariant
                root@ == project_root@,
                package_rules@.map_values(|s: GlobSet| glob_set_patterns(s)) == fs_rules_of(
                    packages@.take(i as int),
                    root@,
                ),
        {
            let ghost prefix = packages@.take(i + 1);
            assert(prefix.drop_last() =~= packages@.take(i as int));
            assert(prefix.last() == packages@[i as int]);
            let (name, policy) = &packages[i];
            let mut builder = glob_set_builder();
            let ghost tv = strings_view(policy.fs@);
            for j in 0..policy.fs.len()
                invariant
                    root@ == project_root@,
                    tv == strings_view(policy.fs@),
                    builder_patterns(builder) == compiled_patterns(tv.take(j as int), root@),
            {
                assert(tv.take(j + 1).drop_last() =~= tv.take(j as int));
                assert(tv.take(j + 1).last() == policy.fs@[j as int]@);
                let rule = to_chars(policy.fs[j].as_str());
                match pattern_of_rule(&rule, &root) {
                    Some(pattern) => {
                        let text = from_chars(&pattern);
                        glob_set_builder_add(&mut builder, text.as_str());
                    },
                    None => {},
                }
            }
            assert(tv.take(policy.fs.len() as int) =~= tv);
            let ghost before = package_rules@;
            match glob_set_build(&builder) {
                Some(set) => {
                    package_rules.insert(name.clone(), set);
                    assert(package_rules@.map_values(|s: GlobSet| glob_set_patterns(s)) =~= before.map_values(
                        |s: GlobSet| glob_set_patterns(s),
                    ).insert(name@, glob_set_patterns(set)));
                },
                None => {},
            }
        }
        assert(packages@.take(packages.len() as int) =~= packages@);
        let mut spoof_table: StringHashMap<String> = StringHashMap::new();
        for i in 0..spoofs.len()
            invariant
                spoof_table@.map_values(|s: String| s@) == spoof_map(spoofs@.take(i as int)),
        {
            let ghost prefix = spoofs@.take(i + 1);
            assert(prefix.drop_last() =~= spoofs@.take(i as int));
            assert(prefix.last() == spoofs@[i as int]);
            let ghost before = spoof_table@;
            let (path, data) = &spoofs[i];
            spoof_table.insert(path.clone(), data.clone());
            assert(spoof_table@.map_values(|s: String| s@) =~= before.map_values(|s: String| s@).insert(
                path@,
                data@,
            ));
        }
        assert(spoofs@.take(spoofs.len() as int) =~= spoofs@);
        FsManager { package_rules, spoofs: spoof_table, project_root }
    }

    /// The project root.
    pub fn project_root_string(&self) -> (r: String)
        ensures
            r@ == self.root(),
    {
        self.project_root.clone()
    }

    /// The absolute form of a requested path (see [`absolute_of`]).
    pub fn absolute_path(&self, requested_path: &str) -> (r: String)
        ensures
            r@ == absolute_of(requested_path@, self.root()),
    {
        let p = to_chars(requested_path);
        if p.len() > 0 && p[0] == '/' {
            from_chars(&p)
        } else {
            from_chars(&path_join(&to_chars(self.project_root.as_str()), &p))
        }
    }

    /// The remainder of the absolute form of `requested_path` after the
    /// project root, when the root begins it lexically. When this is `None`,
    /// [`FsManager::is_allowed`] uses the canonical paths it is given.
    pub fn lexical_relative_path(&self, requested_path: &str) -> (r: Option<String>)
        ensures
            match r {
                Some(v) => strip_prefix_spec(absolute_of(requested_path@, self.root()), self.root())
                    == Some(v@),
                None => strip_prefix_spec(
                    absolute_of(requested_path@, self.root()),
                    self.root(),
                ) is None,
            },
    {
        let abs = to_chars(self.absolute_path(requested_path).as_str());
        match strip_prefix(&abs, &to_chars(self.project_root.as_str())) {
            Some(v) => Some(from_chars(&v)),
            None => None,
        }
    }

    /// Whether `package_name` may read `requested_path` (see [`fs_allowed`]).
    /// `canonical` holds the canonical forms of the absolute path and of the
    /// project root when both could be resolved; it is consulted only when
    /// the project root does not lexically begin the absolute path.
    pub fn is_allowed(
        &self,
        package_name: &str,
        requested_path: &str,
        canonical: Option<(String, String)>,
    ) -> (r: bool)
        ensures
            r == fs_allowed(
                self.rules(),
                self.root(),
                package_name@,
                requested_path@,
                canonical_view(canonical),
            ),
    {
        let abs_string = self.absolute_path(requested_path);
        let abs = to_chars(abs_string.as_str());
        let normalized_string = normalize_path(abs_string.as_str());
        let normalized = to_chars(normalized_string.as_str());
        if system_path(&normalized) {
            return true;
        }
        let root = to_chars(self.project_root.as_str());
        let relative: Vec<char> = match strip_prefix(&abs, &root) {
            Some(r) => r,
            None => match &canonical {
                Some((abs_can, root_can)) => match strip_prefix(
                    &to_chars(abs_can.as_str()),
                    &to_chars(root_can.as_str()),
                ) {
                    Some(r) => r,
                    None => normalized.clone(),
                },
                None => normalized.clone(),
            },
        };
        match self.package_rules.get(package_name) {
            Some(set) => {
                assert(self.rules()[package_name@] == glob_set_patterns(*set));
                if glob_set_is_match(set, normalized_string.as_str()) {
                    return true;
                }
                let relative_string = from_chars(&relative);
                glob_set_is_match(set, relative_string.as_str())
            },
            None => chars_eq(&to_chars(package_name), &root_name()),
        }
    }

    /// The mock file that a read of `path` is redirected to, when `path` is
    /// spoofed (see [`spoof_file_name`]).
    pub fn get_spoof(&self, path: &str) -> (r: Option<String>)
        ensures
            match r {
                Some(s) => self.spoofs().contains_key(path@) && s@ == spoof_file_name(path@),
                None => !self.spoofs().contains_key(path@),
            },
    {
        match self.spoofs.get(path) {
            Some(_) => {
                let p = to_chars(path);
                let mut name = to_chars(".astraea_spoof_");
                let ghost prefix = name@;
                for i in 0..p.len()
                    invariant
                        name@ == prefix + p@.take(i as int).map_values(
                            |c: char| if c == '/' { '_' } else { c },
                        ),
                {
                    let c = p[i];
                    name.push(if c == '/' { '_' } else { c });
                    assert(p@.take(i + 1).map_values(|c: char| if c == '/' { '_' } else { c })
                        =~= p@.take(i as int).map_values(|c: char| if c == '/' { '_' } else { c }).push(
                        if c == '/' { '_' } else { c },
                    ));
                }
                assert(p@.take(p.len() as int) =~= p@);
                Some(from_chars(&name))
            },
            None => None,
        }
    }
}

} // verus!
