use astraea::fs::FsManager;
use astraea::policy::PackagePolicy;

fn fs_policy(rules: &[&str]) -> PackagePolicy {
    PackagePolicy { fs: rules.iter().map(|s| s.to_string()).collect(), ..Default::default() }
}

fn manager() -> FsManager {
    let packages = vec![
        (
            "app".to_string(),
            fs_policy(&[
                "read:src/**",
                "read:./config/*.json",
                "read:/etc/app/*.conf",
                "write:/tmp/**",
                "read:[",
            ]),
        ),
        ("none".to_string(), fs_policy(&[])),
    ];
    let spoofs = vec![
        ("config/secrets.json".to_string(), "{\"key\": \"first\"}".to_string()),
        ("/home/u/.npmrc".to_string(), "token=x".to_string()),
    ];
    FsManager::new(&packages, &spoofs, "/proj".to_string())
}

#[test]
fn system_locations_are_readable_by_every_package() {
    let m = manager();
    for p in ["/proc/self/status", "/sys/kernel/x", "/dev/null", "/etc/hosts", "/etc/resolv.conf", "/usr/lib/libc.so", "/lib64/ld.so", "/etc/ssl/certs/ca.pem"] {
        assert!(m.is_allowed("stranger", p, None), "{p}");
    }
    assert!(!m.is_allowed("stranger", "/etc/hostsx", None));
    assert!(!m.is_allowed("stranger", "/etc/passwd", None));
}

#[test]
fn system_location_check_uses_the_normalized_path() {
    let m = manager();
    assert!(m.is_allowed("stranger", "../../../proc/cpuinfo", None));
    assert!(!m.is_allowed("stranger", "/proc/../etc/passwd", None));
}

#[test]
fn root_without_rules_reads_anything_and_others_nothing() {
    let m = manager();
    assert!(m.is_allowed("root", "/home/u/secret", None));
    assert!(!m.is_allowed("stranger", "/home/u/secret", None));
    assert!(!m.is_allowed("none", "/proj/src/index.js", None));
}

#[test]
fn relative_rules_are_anchored_at_the_project_root() {
    let m = manager();
    assert!(m.is_allowed("app", "src/index.js", None));
    assert!(m.is_allowed("app", "/proj/src/lib/deep/x.js", None));
    assert!(m.is_allowed("app", "config/app.json", None));
    assert!(m.is_allowed("app", "./config/app.json", None));
    assert!(!m.is_allowed("app", "config/app.yaml", None));
    assert!(!m.is_allowed("app", "/other/src/index.js", None));
}

#[test]
fn absolute_rules_and_ignored_rules() {
    let m = manager();
    assert!(m.is_allowed("app", "/etc/app/main.conf", None));
    assert!(!m.is_allowed("app", "/etc/passwd", None));
    assert!(!m.is_allowed("app", "/tmp/x", None));
}

#[test]
fn traversal_is_resolved_before_matching() {
    let m = manager();
    assert!(!m.is_allowed("app", "src/../secret.txt", None));
    assert!(!m.is_allowed("app", "src/../../etc/shadow", None));
    assert!(m.is_allowed("app", "/proj/lib/../src/x.js", None));
}

#[test]
fn canonical_paths_only_give_the_relative_form() {
    let m = manager();
    let canonical = Some(("/proj/src/a.js".to_string(), "/proj".to_string()));
    assert!(!m.is_allowed("app", "/mnt/link/src/a.js", canonical));
}

#[test]
fn relative_project_root_keeps_patterns_relative() {
    let packages = vec![("app".to_string(), fs_policy(&["read:src/**"]))];
    let m = FsManager::new(&packages, &Vec::new(), String::new());
    assert!(m.is_allowed("app", "src/a.js", None));
    assert!(m.is_allowed("app", "./src/a.js", None));
    assert!(!m.is_allowed("app", "lib/a.js", None));
}

#[test]
fn spoofed_paths_get_a_mock_file_name() {
    let m = manager();
    assert_eq!(m.get_spoof("config/secrets.json"), Some(".astraea_spoof_config_secrets.json".to_string()));
    assert_eq!(m.get_spoof("/home/u/.npmrc"), Some(".astraea_spoof__home_u_.npmrc".to_string()));
    assert_eq!(m.get_spoof("./config/secrets.json"), None);
    assert_eq!(m.get_spoof("config/other.json"), None);
}

#[test]
fn path_helpers() {
    let m = manager();
    assert_eq!(m.project_root_string(), "/proj");
    assert_eq!(m.absolute_path("src/a.js"), "/proj/src/a.js");
    assert_eq!(m.absolute_path("/etc/hosts"), "/etc/hosts");
    assert_eq!(m.lexical_relative_path("src/a.js"), Some("src/a.js".to_string()));
    assert_eq!(m.lexical_relative_path("/proj"), Some(String::new()));
    assert_eq!(m.lexical_relative_path("/elsewhere/a.js"), None);
}

#[test]
fn mock_file_names_never_leave_the_working_directory() {
    let packages: Vec<(String, astraea::policy::PackagePolicy)> = Vec::new();
    let spoofs = vec![
        ("../../etc/passwd".to_string(), "x".to_string()),
        ("/".to_string(), "y".to_string()),
    ];
    let m = FsManager::new(&packages, &spoofs, "/proj".to_string());
    let a = m.get_spoof("../../etc/passwd").unwrap();
    assert_eq!(a, ".astraea_spoof_.._.._etc_passwd");
    assert!(!a.contains('/'));
    assert_eq!(m.get_spoof("/"), Some(".astraea_spoof__".to_string()));
}
