use astraea::policy::PackagePolicy;
use astraea::proc_env::ProcEnvManager;

fn strings(v: &[&str]) -> Vec<String> {
    v.iter().map(|s| s.to_string()).collect()
}

fn manager() -> ProcEnvManager {
    let packages = vec![
        (
            "build-tool".to_string(),
            PackagePolicy {
                env: strings(&["NODE_ENV", "npm_config_*"]),
                proc: strings(&["/usr/bin/../bin/git", "/opt/tools/*"]),
                ..Default::default()
            },
        ),
        (
            "anything".to_string(),
            PackagePolicy { env: strings(&["*"]), proc: strings(&["*"]), ..Default::default() },
        ),
        ("nothing".to_string(), PackagePolicy::default()),
    ];
    ProcEnvManager::new(&packages)
}

#[test]
fn root_may_change_any_environment_key() {
    let m = manager();
    assert!(m.is_env_allowed("root", "PATH"));
    assert!(m.is_proc_allowed("root", "/bin/sh"));
}

#[test]
fn environment_keys_by_exact_name_and_prefix() {
    let m = manager();
    assert!(m.is_env_allowed("build-tool", "NODE_ENV"));
    assert!(m.is_env_allowed("build-tool", "npm_config_cache"));
    assert!(m.is_env_allowed("build-tool", "npm_config_"));
    assert!(!m.is_env_allowed("build-tool", "NODE_ENV2"));
    assert!(!m.is_env_allowed("build-tool", "PATH"));
    assert!(m.is_env_allowed("anything", "PATH"));
}

#[test]
fn packages_without_rules_are_denied() {
    let m = manager();
    assert!(!m.is_env_allowed("unknown", "HOME"));
    assert!(!m.is_proc_allowed("unknown", "/bin/ls"));
    assert!(!m.is_env_allowed("nothing", "HOME"));
    assert!(!m.is_proc_allowed("nothing", "/bin/ls"));
}

#[test]
fn executables_are_compared_normalized() {
    let m = manager();
    assert!(m.is_proc_allowed("build-tool", "/usr/bin/git"));
    assert!(m.is_proc_allowed("build-tool", "/usr/./bin//git"));
    assert!(m.is_proc_allowed("build-tool", "/usr/lib/../bin/git"));
    assert!(!m.is_proc_allowed("build-tool", "/usr/bin/git2"));
}

#[test]
fn executable_prefix_patterns_are_not_normalized() {
    let m = manager();
    assert!(m.is_proc_allowed("build-tool", "/opt/tools/bin/x"));
    assert!(m.is_proc_allowed("build-tool", "/opt/tools/../../bin/sh") == false);
    assert!(m.is_proc_allowed("anything", "sh"));
}
