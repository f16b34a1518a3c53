use astraea::evaluator::{LocalEvaluator, DECISION_ALLOW, DECISION_DENY, DECISION_SPOOF};
use astraea::ip::IpValue;
use astraea::net::{NetManager, NetVerdict};
use astraea::policy::{Manifest, PackagePolicy, SeccompConfig};

fn strings(v: &[&str]) -> Vec<String> {
    v.iter().map(|s| s.to_string()).collect()
}

/// The example manifest of the project's documentation.
fn documented_manifest() -> Manifest {
    Manifest {
        packages: vec![
            (
                "root".to_string(),
                PackagePolicy {
                    fs: strings(&["read:package.json", "read:src/**"]),
                    native_addons: strings(&["*.node"]),
                    network: strings(&["allow:api.github.com:443", "allow:127.0.0.1:53"]),
                    ..Default::default()
                },
            ),
            ("axios".to_string(), PackagePolicy { network: strings(&["allow:*.github.com:*"]), ..Default::default() }),
        ],
        spoofs: vec![("config/secrets.json".to_string(), "{\"key\": \"mocked_value\"}".to_string())],
        seccomp: SeccompConfig { allowed_syscalls: strings(&["ptrace"]) },
    }
}

fn evaluator() -> LocalEvaluator {
    let m = documented_manifest();
    let hosts = NetManager::rule_hosts(&m.packages);
    assert!(hosts.contains(&"127.0.0.1".to_string()));
    let addrs = vec![("127.0.0.1".to_string(), IpValue { v6: false, bits: 0x7f00_0001 })];
    LocalEvaluator::new(m, &addrs, "/app".to_string(), None)
}

#[test]
fn documented_root_file_rules() {
    let mut e = evaluator();
    assert_eq!(e.evaluate_fs("root", "package.json", None), (DECISION_ALLOW, None));
    assert_eq!(e.evaluate_fs("root", "src/server/index.js", None), (DECISION_ALLOW, None));
    assert_eq!(e.evaluate_fs("root", "/home/user/.ssh/id_rsa", None), (DECISION_DENY, None));
    assert_eq!(e.evaluate_fs("axios", "package.json", None), (DECISION_DENY, None));
}

#[test]
fn documented_spoof_redirects_the_secret() {
    let mut e = evaluator();
    assert_eq!(
        e.evaluate_fs("axios", "config/secrets.json", None),
        (DECISION_SPOOF, Some(".astraea_spoof_config_secrets.json".to_string()))
    );
}

#[test]
fn documented_network_rules() {
    let mut e = evaluator();
    assert!(matches!(e.check_net("root", "api.github.com", None, 443, 0, 6, 0), NetVerdict::Allowed));
    let lo = Some((IpValue { v6: false, bits: 0x7f00_0001 }, "127.0.0.1".to_string()));
    assert!(matches!(e.check_net("root", "127.0.0.1", lo, 53, 0, 17, 0), NetVerdict::Allowed));
    assert!(matches!(e.check_net("axios", "uploads.github.com", None, 8443, 0, 6, 0), NetVerdict::Allowed));
    assert!(matches!(e.check_net("axios", "github.com", None, 443, 0, 6, 0), NetVerdict::Denied));
    assert!(matches!(e.check_net("axios", "api.github.com", None, 443, 1, 6, 0), NetVerdict::Denied));
    assert!(matches!(e.check_net("left-pad", "api.github.com", None, 443, 0, 6, 0), NetVerdict::Denied));
}

#[test]
fn documented_native_addons_and_seccomp() {
    let mut e = evaluator();
    assert_eq!(e.evaluate_dlopen("root", "/app/build/Release/native.node"), DECISION_ALLOW);
    assert_eq!(e.evaluate_dlopen("axios", "/app/build/Release/native.node"), DECISION_DENY);
    assert_eq!(e.seccomp.allowed_syscalls, vec!["ptrace".to_string()]);
}
