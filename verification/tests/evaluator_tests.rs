use astraea::audit::{AuditEvent, AuditLogger};
use astraea::evaluator::{LocalEvaluator, DECISION_ALLOW, DECISION_DENY, DECISION_SPOOF};
use astraea::ip::IpValue;
use astraea::net::NetVerdict;
use astraea::policy::{Manifest, PackagePolicy, SeccompConfig};
use std::sync::mpsc::{channel, Receiver};

fn strings(v: &[&str]) -> Vec<String> {
    v.iter().map(|s| s.to_string()).collect()
}

fn manifest() -> Manifest {
    Manifest {
        packages: vec![
            (
                "app".to_string(),
                PackagePolicy {
                    fs: strings(&["read:src/**"]),
                    native_addons: strings(&["bcrypt_lib.node"]),
                    network: strings(&["connect:tcp:api.github.com:443"]),
                    env: strings(&["NODE_*"]),
                    proc: strings(&["/usr/bin/git"]),
                },
            ),
            ("addons".to_string(), PackagePolicy { native_addons: strings(&["*.node"]), ..Default::default() }),
        ],
        spoofs: vec![("config/secrets.json".to_string(), "{}".to_string())],
        seccomp: SeccompConfig { allowed_syscalls: strings(&["ptrace"]) },
    }
}

fn evaluator() -> (LocalEvaluator, Receiver<AuditEvent>) {
    let (tx, rx) = channel();
    let ev = LocalEvaluator::new(manifest(), &Vec::new(), "/proj".to_string(), Some(AuditLogger::with_channel(tx)));
    (ev, rx)
}

fn next_event(rx: &Receiver<AuditEvent>) -> (String, String, String, bool) {
    let e = rx.try_recv().expect("an audit event");
    (e.package, e.action, e.target, e.allowed)
}

fn ev(p: &str, a: &str, t: &str, ok: bool) -> (String, String, String, bool) {
    (p.to_string(), a.to_string(), t.to_string(), ok)
}

#[test]
fn spoofed_read_is_redirected_and_logged() {
    let (mut e, rx) = evaluator();
    assert_eq!(
        e.evaluate_fs("app", "config/secrets.json", None),
        (DECISION_SPOOF, Some(".astraea_spoof_config_secrets.json".to_string()))
    );
    assert_eq!(next_event(&rx), ev("app", "fs", "spoof:config/secrets.json", true));
}

#[test]
fn spoof_takes_precedence_over_rules() {
    let (mut e, _rx) = evaluator();
    assert_eq!(e.evaluate_fs("root", "config/secrets.json", None).0, DECISION_SPOOF);
    assert_eq!(e.evaluate_fs("stranger", "config/secrets.json", None).0, DECISION_SPOOF);
}

#[test]
fn file_reads_are_allowed_or_denied_and_logged() {
    let (mut e, rx) = evaluator();
    assert_eq!(e.evaluate_fs("app", "src/a.js", None), (DECISION_ALLOW, None));
    assert_eq!(next_event(&rx), ev("app", "fs", "read:src/a.js", true));
    assert_eq!(e.evaluate_fs("app", "/home/u/.ssh/id_rsa", None), (DECISION_DENY, None));
    assert_eq!(next_event(&rx), ev("app", "fs", "read:/home/u/.ssh/id_rsa", false));
    assert!(rx.try_recv().is_err());
}

#[test]
fn canonical_forms_are_requested_only_outside_the_root() {
    let (mut e, _rx) = evaluator();
    assert_eq!(e.canonical_request("src/a.js"), None);
    assert_eq!(e.canonical_request("/proj/x"), None);
    assert_eq!(e.canonical_request("/mnt/x"), Some(("/mnt/x".to_string(), "/proj".to_string())));
}

#[test]
fn shared_libraries_that_are_not_addons_load_freely() {
    let (mut e, rx) = evaluator();
    assert_eq!(e.evaluate_dlopen("stranger", "/usr/lib/libssl.so"), DECISION_ALLOW);
    assert!(rx.try_recv().is_err());
}

#[test]
fn native_addons_follow_the_package_entries() {
    let (mut e, rx) = evaluator();
    assert_eq!(e.evaluate_dlopen("app", "/n/build/Release/bcrypt_lib.node"), DECISION_ALLOW);
    assert_eq!(next_event(&rx), ev("app", "native_addons", "/n/build/Release/bcrypt_lib.node", true));
    assert_eq!(e.evaluate_dlopen("app", "/n/other.node"), DECISION_DENY);
    assert_eq!(next_event(&rx), ev("app", "native_addons", "/n/other.node", false));
    assert_eq!(e.evaluate_dlopen("addons", "/x/anything.node"), DECISION_ALLOW);
    assert_eq!(e.evaluate_dlopen("stranger", "/x/anything.node"), DECISION_DENY);
    assert_eq!(e.evaluate_dlopen("root", "/x/anything.node"), DECISION_ALLOW);
}

#[test]
fn root_with_an_entry_follows_its_entries() {
    let mut m = manifest();
    m.packages.push(("root".to_string(), PackagePolicy::default()));
    let mut e = LocalEvaluator::new(m, &Vec::new(), "/proj".to_string(), None);
    assert_eq!(e.evaluate_dlopen("root", "/x/anything.node"), DECISION_DENY);
    assert_eq!(e.evaluate_env("root", "PATH"), DECISION_ALLOW);
}

#[test]
fn environment_and_process_decisions_are_logged() {
    let (mut e, rx) = evaluator();
    assert_eq!(e.evaluate_env("app", "NODE_OPTIONS"), DECISION_ALLOW);
    assert_eq!(next_event(&rx), ev("app", "env", "NODE_OPTIONS", true));
    assert_eq!(e.evaluate_env("app", "LD_PRELOAD"), DECISION_DENY);
    assert_eq!(next_event(&rx), ev("app", "env", "LD_PRELOAD", false));
    assert_eq!(e.evaluate_proc("app", "/usr/bin/../bin/git"), DECISION_ALLOW);
    assert_eq!(next_event(&rx), ev("app", "proc", "/usr/bin/../bin/git", true));
    assert_eq!(e.evaluate_proc("app", "/bin/sh"), DECISION_DENY);
    assert_eq!(next_event(&rx), ev("app", "proc", "/bin/sh", false));
}

#[test]
fn network_decision_in_steps() {
    let (mut e, rx) = evaluator();
    assert!(matches!(e.check_net("app", "api.github.com", None, 443, 0, 6, 0), NetVerdict::Allowed));
    assert_eq!(e.conclude_net("app", "api.github.com", 443, 0, 6, true), DECISION_ALLOW);
    assert_eq!(next_event(&rx), ev("app", "network", "connect:tcp:api.github.com:443", true));
    let a = IpValue { v6: false, bits: 0x8c52_7006 };
    let host_addr = Some((a, "140.82.112.6".to_string()));
    assert!(matches!(
        e.check_net("app", "140.82.112.6", host_addr.clone(), 443, 0, 6, 0),
        NetVerdict::Unresolved { .. }
    ));
    assert!(e.confirm_net("app", "api.github.com", a, "140.82.112.6", &vec![a], 0));
    assert!(matches!(e.check_net("app", "140.82.112.6", host_addr, 443, 0, 6, 1_000), NetVerdict::Allowed));
    assert_eq!(e.conclude_net("app", "140.82.112.6", 443, 1, 17, false), DECISION_DENY);
    assert_eq!(next_event(&rx), ev("app", "network", "bind:udp:140.82.112.6:443", false));
}

#[test]
fn registered_dns_result_allows_the_address() {
    let (mut e, _rx) = evaluator();
    let a = IpValue { v6: false, bits: 0x0102_0304 };
    let host_addr = Some((a, "1.2.3.4".to_string()));
    e.register_dns("app", "api.github.com", "1.2.3.4", 300, 10);
    assert!(matches!(e.check_net("app", "1.2.3.4", host_addr.clone(), 443, 0, 6, 299_009), NetVerdict::Allowed));
    assert!(!matches!(e.check_net("app", "1.2.3.4", host_addr, 443, 0, 6, 300_010), NetVerdict::Allowed));
}

#[test]
fn seccomp_names_are_kept() {
    let (mut e, _rx) = evaluator();
    assert_eq!(e.seccomp.allowed_syscalls, vec!["ptrace".to_string()]);
}

#[test]
fn one_event_per_logged_decision() {
    let (mut e, rx) = evaluator();
    e.evaluate_fs("app", "config/secrets.json", None);
    e.evaluate_fs("app", "src/a.js", None);
    e.evaluate_dlopen("app", "/usr/lib/libz.so");
    e.evaluate_env("app", "HOME");
    let events: Vec<_> = rx.try_iter().map(|x| (x.action, x.target, x.allowed)).collect();
    assert_eq!(
        events,
        vec![
            ("fs".to_string(), "spoof:config/secrets.json".to_string(), true),
            ("fs".to_string(), "read:src/a.js".to_string(), true),
            ("env".to_string(), "HOME".to_string(), false),
        ]
    );
}
