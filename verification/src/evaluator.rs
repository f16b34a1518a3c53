//! The local evaluator: one policy manifest's decisions for every kind of
//! access, with each decision logged.

use vstd::prelude::*;
use vstd::hash_map::StringHashMap;
use crate::audit::{audit_event, fs_audit_target, fs_target_spec, net_audit_target, net_target_spec, AuditLogger};
use crate::fs::{fs_allowed, fs_rules_of, absolute_of, canonical_view, spoof_file_name, FsManager};
use crate::ip::IpValue;
use crate::net::{
    addrs_view, dns_after, dns_expiry, net_rules_of, net_verdict, verdict_view, NetManager,
    NetVerdict,
};
use crate::paths::strip_prefix_spec;
use crate::policy::{
    copy_strings, lemma_package_map_insert, package_map, root_name, root_package, spoof_map,
    strings_view, Manifest, PackagePolicy, SeccompConfig,
};
use crate::proc_env::{env_allowed, proc_allowed, proc_env_rules_of, ProcEnvManager};
use crate::text::{chars_ends_with, chars_eq, has_suffix, to_chars};

verus! {

/// The access is refused.
pub const DECISION_DENY: i32 = 0;

/// The access may proceed.
pub const DECISION_ALLOW: i32 = 1;

/// The access is redirected to mock data.
pub const DECISION_SPOOF: i32 = 2;

/// Answers the decisions of an intercepted process. Implemented by the
/// process around the library: in the process itself (with the local
/// evaluator below) or by asking the daemon.
pub trait Evaluator: Send + Sync {
    /// The decision on reading `path`, and the mock file for a spoofed read.
    fn evaluate_fs(&self, package: &str, path: &str) -> (i32, Option<String>);

    /// The decision on loading the shared library `path`.
    fn evaluate_dlopen(&self, package: &str, path: &str) -> i32;

    /// The decision on connecting to or binding `host:port`.
    fn evaluate_net(&self, package: &str, host: &str, port: u16, action: i32, protocol: i32)
        -> i32;

    /// The decision on changing the environment key `key`.
    fn evaluate_env(&self, package: &str, key: &str) -> i32;

    /// The decision on executing `binary`.
    fn evaluate_proc(&self, package: &str, binary: &str) -> i32;

    /// Records that `domain` resolved to `ip` with time-to-live `ttl` seconds.
    fn register_dns(&self, package: &str, domain: &str, ip: &str, ttl: u32);
}

/// The audit log after one more event (no log stays no log).
pub open spec fn logged_after(
    log: Option<Seq<(Seq<char>, Seq<char>, Seq<char>, bool)>>,
    event: (Seq<char>, Seq<char>, Seq<char>, bool),
) -> Option<Seq<(Seq<char>, Seq<char>, Seq<char>, bool)>> {
    match log {
        Some(s) => Some(s.push(event)),
        None => None,
    }
}

/// The decision code of a yes/no answer.
pub open spec fn decision_of(allowed: bool) -> i32 {
    if allowed {
        DECISION_ALLOW
    } else {
        DECISION_DENY
    }
}

/// Whether `package` may load the shared library `path`: anything but a
/// `.node` addon always; an addon when one of the package's entries is a
/// suffix of its path or is `*.node`; a package without entries only if it
/// is the root package.
pub open spec fn dlopen_allowed(
    rules: Map<Seq<char>, Seq<Seq<char>>>,
    package: Seq<char>,
    path: Seq<char>,
) -> bool {
    if !has_suffix(path, ".node"@) {
        true
    } else if rules.contains_key(package) {
        exists|i: int|
            0 <= i < rules[package].len() && (has_suffix(path, #[trigger] rules[package][i])
                || rules[package][i] == "*.node"@)
    } else {
        package == root_package()
    }
}

/// The native addon entries of each package of a manifest.
pub open spec fn addon_rules_of(entries: Seq<(String, PackagePolicy)>) -> Map<Seq<char>, Seq<Seq<char>>> {
    package_map(entries).map_values(|p: PackagePolicy| strings_view(p.native_addons@))
}

/// Evaluates every kind of access against one manifest.
pub struct LocalEvaluator {
    fs: FsManager,
    net: NetManager,
    proc_env: ProcEnvManager,
    native_addon_rules: StringHashMap<Vec<String>>,
    pub seccomp: SeccompConfig,
    audit: Option<AuditLogger>,
}

impl LocalEvaluator {
    /// The file capabilities.
    pub closed spec fn fs_manager(&self) -> FsManager {
        self.fs
    }

    /// The network capabilities.
    pub closed spec fn net_manager(&self) -> NetManager {
        self.net
    }

    /// The environment and process capabilities.
    pub closed spec fn proc_env_manager(&self) -> ProcEnvManager {
        self.proc_env
    }

    /// The native addon entries of each package.
    pub closed spec fn addon_rules(&self) -> Map<Seq<char>, Seq<Seq<char>>> {
        self.native_addon_rules@.map_values(|v: Vec<String>| strings_view(v@))
    }

    /// The names of the extra system calls the system-call filter admits.
    pub closed spec fn seccomp_syscalls(&self) -> Seq<Seq<char>> {
        strings_view(self.seccomp.allowed_syscalls@)
    }

    /// The events handed to the audit logger so far, or `None` when the
    /// evaluator has no logger.
    pub closed spec fn audit_log(&self) -> Option<Seq<(Seq<char>, Seq<char>, Seq<char>, bool)>> {
        match self.audit {
            Some(a) => Some(a.sent()),
            None => None,
        }
    }

    /// The evaluator's parts are consistent.
    pub open spec fn wf(&self) -> bool {
        self.net_manager().wf()
    }

    /// The two evaluators decide alike: the same capabilities, DNS cache and
    /// system-call names.
    pub open spec fn same_decisions(&self, other: &LocalEvaluator) -> bool {
        &&& self.fs_manager() == other.fs_manager()
        &&& self.net_manager() == other.net_manager()
        &&& self.proc_env_manager() == other.proc_env_manager()
        &&& self.addon_rules() == other.addon_rules()
        &&& self.seccomp_syscalls() == other.seccomp_syscalls()
    }

    /// Builds every manager from the manifest. `host_addresses` lists the
    /// network rule hosts that are addresses (see [`NetManager::new`]) and
    /// `project_root` is the directory relative paths are read against.
    pub fn new(
        manifest: Manifest,
        host_addresses: &Vec<(String, IpValue)>,
        project_root: String,
        audit: Option<AuditLogger>,
    ) -> (r: Self)
        ensures
            r.wf(),
            r.fs_manager().rules() == fs_rules_of(manifest.packages@, project_root@),
            r.fs_manager().spoofs() == spoof_map(manifest.spoofs@),
            r.fs_manager().root() == project_root@,
            r.net_manager().rules() == net_rules_of(manifest.packages@, addrs_view(host_addresses@)),
            r.net_manager().dns().is_empty(),
            r.proc_env_manager().rules() == proc_env_rules_of(manifest.packages@),
            r.addon_rules() == addon_rules_of(manifest.packages@),
            r.seccomp_syscalls() == strings_view(
                manifest.seccomp.allowed_syscalls@,
            ),
            r.audit_log() == match audit {
                Some(a) => Some(a.sent()),
                None => None,
            },
    {
        let mut native_addon_rules: StringHashMap<Vec<String>> = StringHashMap::new();
        let packages = &manifest.packages;
        for i in 0..packages.len()
            invariant
                packages == &manifest.packages,
                native_addon_rules@.map_values(|v: Vec<String>| strings_view(v@)) == addon_rules_of(
                    packages@.take(i as int),
                ),
        {
            let ghost before = native_addon_rules@;
            let ghost prefix = packages@.take(i + 1);
            assert(prefix.drop_last() =~= packages@.take(i as int));
            assert(prefix.last() == packages@[i as int]);
            let (name, policy) = &packages[i];
            let addons = copy_strings(&policy.native_addons);
            proof {
                lemma_package_map_insert(
                    before,
                    |v: Vec<String>| strings_view(v@),
                    prefix,
                    |p: PackagePolicy| strings_view(p.native_addons@),
                    addons,
                );
            }
            native_addon_rules.insert(name.clone(), addons);
        }
        assert(packages@.take(packages.len() as int) =~= packages@);
        let fs = FsManager::new(&manifest.packages, &manifest.spoofs, project_root);
        let net = NetManager::new(&manifest.packages, host_addresses);
        let proc_env = ProcEnvManager::new(&manifest.packages);
        let seccomp = SeccompConfig { allowed_syscalls: copy_strings(&manifest.seccomp.allowed_syscalls) };
        LocalEvaluator { fs, net, proc_env, native_addon_rules, seccomp, audit }
    }

    fn log_event(&mut self, package: &str, action: &str, target: String, allowed: bool)
        ensures
            final(self).same_decisions(old(self)),
            final(self).audit_log() == logged_after(
                old(self).audit_log(),
                (package@, action@, target@, allowed),
            ),
    {
        let ghost t = target@;
        let taken = self.audit.take();
        match taken {
            Some(mut audit) => {
                audit.log(audit_event(package, action, target, allowed));
                self.audit = Some(audit);
            },
            None => {},
        }
    }

    /// The absolute path and the project root, when the root does not
    /// lexically begin the absolute form of `path`: the caller then passes
    /// their canonical forms to [`LocalEvaluator::evaluate_fs`].
    pub fn canonical_request(&self, path: &str) -> (r: Option<(String, String)>)
        ensures
            match r {
                Some(p) => strip_prefix_spec(
                    absolute_of(path@, self.fs_manager().root()),
                    self.fs_manager().root(),
                ) is None && p.0@ == absolute_of(path@, self.fs_manager().root()) && p.1@
                    == self.fs_manager().root(),
                None => strip_prefix_spec(
                    absolute_of(path@, self.fs_manager().root()),
                    self.fs_manager().root(),
                ) is Some,
            },
    {
        match self.fs.lexical_relative_path(path) {
            Some(_) => None,
            None => Some((self.fs.absolute_path(path), self.fs.project_root_string())),
        }
    }

    /// The decision on reading `path`: spoofed paths are redirected to their
    /// mock file; other reads are allowed or denied by the file rules (see
    /// [`fs_allowed`]). `canonical` is as for [`FsManager::is_allowed`]. One
    /// event is logged: `spoof:path` (allowed) for a spoofed read, otherwise
    /// `read:path` with the decision.
    pub fn evaluate_fs(&mut self, package: &str, path: &str, canonical: Option<(String, String)>) -> (r:
        (i32, Option<String>))
        ensures
            final(self).same_decisions(old(self)),
            if old(self).fs_manager().spoofs().contains_key(path@) {
                &&& r.0 == DECISION_SPOOF
                &&& r.1 matches Some(s) && s@ == spoof_file_name(path@)
                &&& final(self).audit_log() == logged_after(
                    old(self).audit_log(),
                    (package@, "fs"@, fs_target_spec(path@, true), true),
                )
            } else {
                &&& r.0 == decision_of(
                    fs_allowed(
                        old(self).fs_manager().rules(),
                        old(self).fs_manager().root(),
                        package@,
                        path@,
                        canonical_view(canonical),
                    ),
                )
                &&& r.1 is None
                &&& final(self).audit_log() == logged_after(
                    old(self).audit_log(),
                    (package@, "fs"@, fs_target_spec(path@, false), r.0 == DECISION_ALLOW),
                )
            },
    {
        match self.fs.get_spoof(path) {
            Some(spoof_path) => {
                self.log_event(package, "fs", fs_audit_target(path, true), true);
                (DECISION_SPOOF, Some(spoof_path))
            },
            None => {
                let allowed = self.fs.is_allowed(package, path, canonical);
                self.log_event(package, "fs", fs_audit_target(path, false), allowed);
                if allowed {
                    (DECISION_ALLOW, None)
                } else {
                    (DECISION_DENY, None)
                }
            },
        }
    }

    /// The decision on loading the shared library `path` (see
    /// [`dlopen_allowed`]); an attempt to load a `.node` addon is logged with
    /// its path and the decision, other loads are not.
    pub fn evaluate_dlopen(&mut self, package: &str, path: &str) -> (r: i32)
        ensures
            final(self).same_decisions(old(self)),
            r == decision_of(dlopen_allowed(old(self).addon_rules(), package@, path@)),
            final(self).audit_log() == if has_suffix(path@, ".node"@) {
                logged_after(
                    old(self).audit_log(),
                    (package@, "native_addons"@, path@, r == DECISION_ALLOW),
                )
            } else {
                old(self).audit_log()
            },
    {
        let p = to_chars(path);
        let star_node = to_chars("*.node");
        let is_addon = chars_ends_with(&p, &to_chars(".node"));
        let allowed = if !is_addon {
            true
        } else {
            match self.native_addon_rules.get(package) {
                Some(addons) => {
                    let ghost entries = strings_view(addons@);
                    assert(entries == self.addon_rules()[package@]);
                    let mut found = false;
                    for i in 0..addons.len()
                        invariant
                            entries == strings_view(addons@),
                            entries == self.addon_rules()[package@],
                            self.addon_rules().contains_key(package@),
                            star_node@ == "*.node"@,
                            found == exists|j: int|
                                0 <= j < i && (has_suffix(p@, #[trigger] entries[j]) || entries[j]
                                    == "*.node"@),
                    {
                        let a = to_chars(addons[i].as_str());
                        assert(a@ == entries[i as int]);
                        if chars_ends_with(&p, &a) || chars_eq(&a, &star_node) {
                            found = true;
                        }
                    }
                    found
                },
                None => chars_eq(&to_chars(package), &root_name()),
            }
        };
        if is_addon {
            self.log_event(package, "native_addons", crate::text::from_chars(&p), allowed);
        }
        if allowed {
            DECISION_ALLOW
        } else {
            DECISION_DENY
        }
    }

    /// The first step of deciding a network access (see
    /// [`NetManager::is_allowed`]).
    pub fn check_net(
        &self,
        package: &str,
        host: &str,
        host_addr: Option<(IpValue, String)>,
        port: u16,
        action: i32,
        protocol: i32,
        now: u64,
    ) -> (r: NetVerdict)
        requires
            self.wf(),
        ensures
            verdict_view(r) == net_verdict(
                self.net_manager().rules(),
                self.net_manager().dns(),
                package@,
                host@,
                match host_addr {
                    Some(p) => Some((p.0, p.1@)),
                    None => None,
                },
                port,
                action,
                protocol,
                now,
            ),
    {
        self.net.is_allowed(package, host, host_addr, port, action, protocol, now)
    }

    /// Completes an unresolved network access with a fresh resolution (see
    /// [`NetManager::confirm_resolution`]).
    pub fn confirm_net(
        &mut self,
        package: &str,
        domain: &str,
        addr: IpValue,
        ip_key: &str,
        resolved: &Vec<IpValue>,
        now: u64,
    ) -> (r: bool)
        requires
            now <= u64::MAX - 3_600_000,
        ensures
            r == resolved@.contains(addr),
            final(self).wf() == old(self).wf(),
            final(self).net_manager().rules() == old(self).net_manager().rules(),
            final(self).net_manager().dns() == if r {
                dns_after(
                    old(self).net_manager().dns(),
                    seq![ip_key@],
                    (domain@, package@, dns_expiry(60, now) as u64),
                )
            } else {
                old(self).net_manager().dns()
            },
            final(self).fs_manager() == old(self).fs_manager(),
            final(self).proc_env_manager() == old(self).proc_env_manager(),
            final(self).addon_rules() == old(self).addon_rules(),
            final(self).seccomp_syscalls() == old(self).seccomp_syscalls(),
            final(self).audit_log() == old(self).audit_log(),
    {
        self.net.confirm_resolution(package, domain, addr, ip_key, resolved, now)
    }

    /// The decision code of a network access once its verdict is known; the
    /// access is logged as `action:protocol:host:port`.
    pub fn conclude_net(
        &mut self,
        package: &str,
        host: &str,
        port: u16,
        action: i32,
        protocol: i32,
        allowed: bool,
    ) -> (r: i32)
        ensures
            final(self).same_decisions(old(self)),
            r == decision_of(allowed),
            final(self).audit_log() == logged_after(
                old(self).audit_log(),
                (package@, "network"@, net_target_spec(host@, port, action, protocol), allowed),
            ),
    {
        self.log_event(package, "network", net_audit_target(host, port, action, protocol), allowed);
        if allowed {
            DECISION_ALLOW
        } else {
            DECISION_DENY
        }
    }

    /// The decision on changing the environment key `key` (see
    /// [`env_allowed`]); logged with the key and the decision.
    pub fn evaluate_env(&mut self, package: &str, key: &str) -> (r: i32)
        ensures
            final(self).same_decisions(old(self)),
            r == decision_of(env_allowed(old(self).proc_env_manager().rules(), package@, key@)),
            final(self).audit_log() == logged_after(
                old(self).audit_log(),
                (package@, "env"@, key@, r == DECISION_ALLOW),
            ),
    {
        let allowed = self.proc_env.is_env_allowed(package, key);
        self.log_event(package, "env", crate::text::from_chars(&to_chars(key)), allowed);
        if allowed {
            DECISION_ALLOW
        } else {
            DECISION_DENY
        }
    }

    /// The decision on executing `binary` (see [`proc_allowed`]); logged
    /// with the binary and the decision.
    pub fn evaluate_proc(&mut self, package: &str, binary: &str) -> (r: i32)
        ensures
            final(self).same_decisions(old(self)),
            r == decision_of(proc_allowed(old(self).proc_env_manager().rules(), package@, binary@)),
            final(self).audit_log() == logged_after(
                old(self).audit_log(),
                (package@, "proc"@, binary@, r == DECISION_ALLOW),
            ),
    {
        let allowed = self.proc_env.is_proc_allowed(package, binary);
        self.log_event(package, "proc", crate::text::from_chars(&to_chars(binary)), allowed);
        if allowed {
            DECISION_ALLOW
        } else {
            DECISION_DENY
        }
    }

    /// Records that `domain` resolved to `ip` for `package` (see
    /// [`NetManager::register_dns`]).
    pub fn register_dns(&mut self, package: &str, domain: &str, ip: &str, ttl: u32, now: u64)
        requires
            now <= u64::MAX - 3_600_000,
        ensures
            final(self).wf() == old(self).wf(),
            final(self).net_manager().rules() == old(self).net_manager().rules(),
            final(self).net_manager().dns() == dns_after(
                old(self).net_manager().dns(),
                seq![ip@],
                (domain@, package@, dns_expiry(ttl, now) as u64),
            ),
            final(self).fs_manager() == old(self).fs_manager(),
            final(self).proc_env_manager() == old(self).proc_env_manager(),
            final(self).addon_rules() == old(self).addon_rules(),
            final(self).seccomp_syscalls() == old(self).seccomp_syscalls(),
            final(self).audit_log() == old(self).audit_log(),
    {
        let ips = vec![ip.to_owned()];
        assert(strings_view(ips@) =~= seq![ip@]);
        self.net.register_dns(package, domain, ips, ttl, now);
    }
}

} // verus!
