use astraea::audit::{
    action_name, audit_event, decimal, depth_audit_target, fs_audit_target, net_audit_target,
    protocol_name, AuditEvent, AuditLogger, AuditSink,
};
use std::sync::mpsc::channel;

fn text(v: &[char]) -> String {
    v.iter().collect()
}

#[test]
fn decimal_texts_match_display() {
    for n in [0u64, 7, 10, 443, 65535, 1_000_000, u64::MAX] {
        assert_eq!(text(&decimal(n)), n.to_string());
    }
}

#[test]
fn action_and_protocol_names() {
    assert_eq!(action_name(1), "bind");
    assert_eq!(action_name(0), "connect");
    assert_eq!(action_name(-3), "connect");
    assert_eq!(protocol_name(6), "tcp");
    assert_eq!(protocol_name(17), "udp");
    assert_eq!(protocol_name(0), "any");
}

#[test]
fn logged_targets() {
    assert_eq!(fs_audit_target("/a/b", false), "read:/a/b");
    assert_eq!(fs_audit_target("x.json", true), "spoof:x.json");
    assert_eq!(net_audit_target("example.com", 8080, 0, 6), "connect:tcp:example.com:8080");
    assert_eq!(net_audit_target("::1", 0, 1, 99), "bind:any:::1:0");
    assert_eq!(depth_audit_target(73), "depth:73");
}

#[test]
fn events_carry_their_fields() {
    let e = audit_event("pkg", "env", "HOME".to_string(), false);
    assert_eq!(e.package, "pkg");
    assert_eq!(e.action, "env");
    assert_eq!(e.target, "HOME");
    assert!(!e.allowed);
}

#[test]
fn logger_queues_events_in_order() {
    let (tx, rx) = channel::<AuditEvent>();
    let mut logger = AuditLogger::with_channel(tx);
    logger.log(audit_event("a", "fs", "read:/x".to_string(), true));
    logger.log(audit_event("b", "proc", "/bin/sh".to_string(), false));
    let first = rx.recv().unwrap();
    let second = rx.recv().unwrap();
    assert_eq!((first.package.as_str(), first.allowed), ("a", true));
    assert_eq!((second.package.as_str(), second.target.as_str()), ("b", "/bin/sh"));
}

#[test]
fn logging_after_the_writer_is_gone_is_harmless() {
    let (tx, rx) = channel::<AuditEvent>();
    drop(rx);
    let mut logger = AuditLogger::with_channel(tx);
    logger.log(audit_event("a", "fs", "read:/x".to_string(), true));
}

#[test]
fn sinks_name_their_destination() {
    let f = AuditSink::File("/tmp/audit.log".to_string());
    let u = AuditSink::Uds("/tmp/astraea.sock".to_string());
    assert!(matches!(f, AuditSink::File(ref p) if p == "/tmp/audit.log"));
    assert!(matches!(u, AuditSink::Uds(ref p) if p == "/tmp/astraea.sock"));
}
