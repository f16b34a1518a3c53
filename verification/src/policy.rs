//! The policy manifest: per-package capability lists, file spoofs and the
//! extra system calls that the system-call filter admits.

use vstd::prelude::*;

verus! {

/// Extra system calls, by name, that the system-call filter admits.
#[derive(Debug, Default, Clone)]
pub struct SeccompConfig {
    pub allowed_syscalls: Vec<String>,
}

/// The capabilities granted to one package.
#[derive(Debug, Default, Clone)]
pub struct PackagePolicy {
    /// File rules such as `read:src/**`.
    pub fs: Vec<String>,
    /// Native addon suffixes such as `addon.node`, or `*.node` for any.
    pub native_addons: Vec<String>,
    /// Network rules such as `connect:tcp:10.0.0.0/8:443` or `allow:host:port`.
    pub network: Vec<String>,
    /// Environment keys or prefix patterns (`KEY`, `PREFIX_*`, `*`).
    pub env: Vec<String>,
    /// Executable paths or prefix patterns.
    pub proc: Vec<String>,
}

/// A whole policy manifest. Package and spoof entries are listed in some
/// order; where a name occurs twice, the later entry wins.
#[derive(Debug, Default, Clone)]
pub struct Manifest {
    pub packages: Vec<(String, PackagePolicy)>,
    pub spoofs: Vec<(String, String)>,
    pub seccomp: SeccompConfig,
}

/// The package name under which the application's own code runs.
pub open spec fn root_package() -> Seq<char> {
    seq!['r', 'o', 'o', 't']
}

/// The character sequences of a list of strings.
pub open spec fn strings_view(v: Seq<String>) -> Seq<Seq<char>> {
    v.map_values(|s: String| s@)
}

/// The policies of a list of package entries, keyed by name; a later entry
/// replaces an earlier one of the same name.
pub open spec fn package_map(entries: Seq<(String, PackagePolicy)>) -> Map<Seq<char>, PackagePolicy>
    decreases entries.len(),
{
    if entries.len() == 0 {
        Map::empty()
    } else {
        package_map(entries.drop_last()).insert(entries.last().0@, entries.last().1)
    }
}

/// The spoofed contents of a list of spoof entries, keyed by path; a later
/// entry replaces an earlier one of the same path.
pub open spec fn spoof_map(entries: Seq<(String, String)>) -> Map<Seq<char>, Seq<char>>
    decreases entries.len(),
{
    if entries.len() == 0 {
        Map::empty()
    } else {
        spoof_map(entries.drop_last()).insert(entries.last().0@, entries.last().1@)
    }
}

/// The characters of the root package name.
pub fn root_name() -> (r: Vec<char>)
    ensures
        r@ == root_package(),
{
    let r = vec!['r', 'o', 'o', 't'];
    assert(r@ =~= root_package());
    r
}

/// A copy of a list of strings.
pub fn copy_strings(v: &Vec<String>) -> (r: Vec<String>)
    ensures
        strings_view(r@) == strings_view(v@),
{
    let mut r: Vec<String> = Vec::new();
    for i in 0..v.len()
        invariant
            strings_view(r@) == strings_view(v@).take(i as int),
    {
        let ghost before = strings_view(r@);
        r.push(v[i].clone());
        assert(strings_view(r@) =~= before.push(v@[i as int]@));
        assert(strings_view(v@).take(i + 1) =~= strings_view(v@).take(i as int).push(
            v@[i as int]@,
        ));
    }
    assert(strings_view(v@).take(v.len() as int) =~= strings_view(v@));
    r
}

/// Building a map from manifest entries one entry at a time keeps it equal,
/// value by value, to the manifest's package map.
pub proof fn lemma_package_map_insert<V, T>(
    before: Map<Seq<char>, V>,
    f: spec_fn(V) -> T,
    entries: Seq<(String, PackagePolicy)>,
    g: spec_fn(PackagePolicy) -> T,
    v: V,
)
    requires
        entries.len() > 0,
        before.map_values(f) == package_map(entries.drop_last()).map_values(g),
        f(v) == g(entries.last().1),
    ensures
        before.insert(entries.last().0@, v).map_values(f) == package_map(entries).map_values(g),
{
    let k = entries.last().0@;
    let m_old = package_map(entries.drop_last());
    let lhs = before.insert(k, v).map_values(f);
    let rhs = package_map(entries).map_values(g);
    assert(before.map_values(f).dom() == before.dom());
    assert(m_old.map_values(g).dom() == m_old.dom());
    assert(before.dom() =~= m_old.dom());
    assert forall|x: Seq<char>| #[trigger] lhs.contains_key(x) implies lhs[x] == rhs[x] by {
        if x != k {
            assert(before.map_values(f)[x] == m_old.map_values(g)[x]);
        }
    }
    assert(lhs =~= rhs);
}

} // verus!
