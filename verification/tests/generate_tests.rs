use astraea::audit::net_audit_target;
use astraea::evaluator::{LocalEvaluator, DECISION_ALLOW};
use astraea::generate::ManifestGenerator;
use astraea::ip::IpValue;
use astraea::net::{NetManager, NetVerdict};
use astraea::policy::{Manifest, PackagePolicy};

#[test]
fn events_are_grouped_by_package_and_action() {
    let mut g = ManifestGenerator::new();
    g.add_event("axios", "network", "connect:tcp:api.github.com:443");
    g.add_event("axios", "fs", "read:/etc/hosts");
    g.add_event("root", "env", "NODE_ENV");
    g.add_event("root", "proc", "/usr/bin/git");
    g.add_event("bcrypt", "native_addons", "/n/bcrypt_lib.node");
    let pk = g.packages();
    assert_eq!(pk.len(), 3);
    assert_eq!(pk[0].0, "axios");
    assert_eq!(pk[0].1.network, vec!["connect:tcp:api.github.com:443".to_string()]);
    assert_eq!(pk[0].1.fs, vec!["read:/etc/hosts".to_string()]);
    assert!(pk[0].1.env.is_empty());
    assert_eq!(pk[1].0, "bcrypt");
    assert_eq!(pk[1].1.native_addons, vec!["/n/bcrypt_lib.node".to_string()]);
    assert_eq!(pk[2].0, "root");
    assert_eq!(pk[2].1.env, vec!["NODE_ENV".to_string()]);
    assert_eq!(pk[2].1.proc, vec!["/usr/bin/git".to_string()]);
}

#[test]
fn packages_and_entries_come_out_in_sorted_order() {
    let mut g = ManifestGenerator::new();
    for (p, t) in [("zeta", "B"), ("alpha", "b"), ("Mid", "a"), ("alpha", "A"), ("zeta", "AB"), ("alpha", "b")] {
        g.add_event(p, "env", t);
    }
    let names: Vec<&str> = g.packages().iter().map(|(n, _)| n.as_str()).collect();
    assert_eq!(names, vec!["Mid", "alpha", "zeta"]);
    assert_eq!(g.packages()[1].1.env, vec!["A".to_string(), "b".to_string()]);
    assert_eq!(g.packages()[2].1.env, vec!["AB".to_string(), "B".to_string()]);
}

#[test]
fn repeated_events_are_recorded_once() {
    let mut g = ManifestGenerator::new();
    g.add_event("p", "env", "HOME");
    g.add_event("p", "env", "PATH");
    g.add_event("p", "env", "HOME");
    let pk = g.packages();
    assert_eq!(pk.len(), 1);
    assert_eq!(pk[0].1.env, vec!["HOME".to_string(), "PATH".to_string()]);
}

#[test]
fn unknown_actions_still_list_the_package() {
    let mut g = ManifestGenerator::new();
    g.add_event("p", "stack_anomaly", "depth:60");
    let pk = g.packages();
    assert_eq!(pk.len(), 1);
    assert_eq!(pk[0].0, "p");
    let pol = &pk[0].1;
    assert!(pol.fs.is_empty() && pol.native_addons.is_empty() && pol.network.is_empty());
    assert!(pol.env.is_empty() && pol.proc.is_empty());
}

#[test]
fn the_same_target_under_two_actions_is_kept_in_both() {
    let mut g = ManifestGenerator::new();
    g.add_event("p", "fs", "x");
    g.add_event("p", "proc", "x");
    let pk = g.packages();
    assert_eq!(pk[0].1.fs, vec!["x".to_string()]);
    assert_eq!(pk[0].1.proc, vec!["x".to_string()]);
}

fn learned(events: &[(&str, &str, &str)]) -> Vec<(String, Vec<Vec<String>>)> {
    let mut g = ManifestGenerator::new();
    for (p, a, t) in events {
        g.add_event(p, a, t);
    }
    let mut out: Vec<(String, Vec<Vec<String>>)> = g
        .packages()
        .iter()
        .map(|(n, p)| {
            let mut lists = vec![p.fs.clone(), p.native_addons.clone(), p.network.clone(), p.env.clone(), p.proc.clone()];
            for l in lists.iter_mut() {
                l.sort();
            }
            (n.clone(), lists)
        })
        .collect();
    out.sort();
    out
}

#[test]
fn learning_does_not_depend_on_event_order() {
    let a = ("x", "env", "HOME");
    let b = ("y", "fs", "read:/a");
    let c = ("x", "env", "PATH");
    assert_eq!(learned(&[a, b, c]), learned(&[c, a, b]));
    assert_eq!(learned(&[a, a]), learned(&[a]));
}

#[test]
fn learned_network_rule_allows_the_logged_attempt() {
    let by_name = net_audit_target("api.github.com", 443, 0, 6);
    let by_addr = net_audit_target("10.1.2.3", 5353, 1, 17);
    let mut g = ManifestGenerator::new();
    g.add_event("web", "network", &by_name);
    g.add_event("web", "network", &by_addr);
    let learned = &g.packages()[0].1;
    let packages = vec![(
        "web".to_string(),
        PackagePolicy { network: learned.network.clone(), ..Default::default() },
    )];
    let a = IpValue { v6: false, bits: 0x0a01_0203 };
    let m = NetManager::new(&packages, &vec![("10.1.2.3".to_string(), a)]);
    assert!(matches!(m.is_allowed("web", "api.github.com", None, 443, 0, 6, 0), NetVerdict::Allowed));
    assert!(matches!(
        m.is_allowed("web", "10.1.2.3", Some((a, "10.1.2.3".to_string())), 5353, 1, 17, 0),
        NetVerdict::Allowed
    ));
    assert!(matches!(m.is_allowed("web", "api.github.com", None, 444, 0, 6, 0), NetVerdict::Denied));
}

#[test]
fn learned_entries_allow_the_logged_attempts() {
    let mut g = ManifestGenerator::new();
    g.add_event("tool", "env", "NODE_OPTIONS");
    g.add_event("tool", "proc", "/usr/bin/../bin/git");
    g.add_event("tool", "native_addons", "/n/build/Release/addon.node");
    let learned = &g.packages()[0].1;
    let manifest = Manifest {
        packages: vec![(
            "tool".to_string(),
            PackagePolicy {
                env: learned.env.clone(),
                proc: learned.proc.clone(),
                native_addons: learned.native_addons.clone(),
                ..Default::default()
            },
        )],
        ..Default::default()
    };
    let mut e = LocalEvaluator::new(manifest, &Vec::new(), "/proj".to_string(), None);
    assert_eq!(e.evaluate_env("tool", "NODE_OPTIONS"), DECISION_ALLOW);
    assert_eq!(e.evaluate_proc("tool", "/usr/bin/../bin/git"), DECISION_ALLOW);
    assert_eq!(e.evaluate_dlopen("tool", "/n/build/Release/addon.node"), DECISION_ALLOW);
}
