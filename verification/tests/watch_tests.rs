use astraea::watch::ProcessWatch;

#[test]
fn node_processes_are_injected_once() {
    let mut w = ProcessWatch::new();
    assert!(w.observe(100, Some("/usr/bin/node")));
    assert!(!w.observe(100, Some("/usr/bin/node")));
    assert!(w.observe(101, Some("astraea-node")));
    assert!(w.observe(102, Some("node")));
}

#[test]
fn other_or_unreadable_processes_are_seen_but_not_injected() {
    let mut w = ProcessWatch::new();
    assert!(!w.observe(7, Some("/bin/bash")));
    assert!(!w.observe(8, None));
    assert!(!w.observe(8, Some("/usr/bin/node")));
    assert!(!w.observe(9, Some("/usr/bin/nodejs")));
}
