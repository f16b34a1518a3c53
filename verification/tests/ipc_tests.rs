use astraea::evaluator::{DECISION_ALLOW, DECISION_DENY, DECISION_SPOOF};
use astraea::ipc::{frame_length, frame_message, fs_response, IpcRequest, IpcResponse, RemoteEvaluator};

#[test]
fn frames_carry_a_big_endian_length() {
    assert_eq!(frame_message(&vec![1, 2, 3]), vec![0, 0, 0, 3, 1, 2, 3]);
    assert_eq!(frame_message(&Vec::new()), vec![0, 0, 0, 0]);
    let big = vec![7u8; 0x1_0203];
    let f = frame_message(&big);
    assert_eq!(&f[..4], &[0, 1, 2, 3]);
    assert_eq!(&f[4..], &big[..]);
}

#[test]
fn frame_header_is_read_back() {
    assert_eq!(frame_length(&[0, 0, 1, 0]), 256);
    assert_eq!(frame_length(&[0x12, 0x34, 0x56, 0x78]), 0x1234_5678);
    assert_eq!(frame_length(&[0xff, 0xff, 0xff, 0xff]), 0xffff_ffff);
    let f = frame_message(&vec![9u8; 300]);
    assert_eq!(frame_length(&[f[0], f[1], f[2], f[3]]), 300);
}

#[test]
fn file_answers_send_redirects_only_when_spoofed() {
    assert!(matches!(
        fs_response(DECISION_SPOOF, Some("m".to_string())),
        IpcResponse::DecisionWithRedirect { decision: 2, redirect_path: Some(ref p) } if p == "m"
    ));
    assert!(matches!(fs_response(DECISION_ALLOW, Some("m".to_string())), IpcResponse::Decision(1)));
    assert!(matches!(fs_response(DECISION_DENY, None), IpcResponse::Decision(0)));
}

#[test]
fn remote_file_outcomes() {
    let redirect = Some(IpcResponse::DecisionWithRedirect { decision: 2, redirect_path: Some("m".to_string()) });
    assert_eq!(RemoteEvaluator::fs_outcome(redirect), (2, Some("m".to_string())));
    assert_eq!(RemoteEvaluator::fs_outcome(Some(IpcResponse::Decision(0))), (0, None));
    assert_eq!(RemoteEvaluator::fs_outcome(Some(IpcResponse::Ack)), (DECISION_ALLOW, None));
    assert_eq!(RemoteEvaluator::fs_outcome(None), (DECISION_ALLOW, None));
}

#[test]
fn remote_decision_outcomes_fail_open() {
    assert_eq!(RemoteEvaluator::decision_outcome(Some(IpcResponse::Decision(0))), 0);
    assert_eq!(RemoteEvaluator::decision_outcome(Some(IpcResponse::Ack)), DECISION_ALLOW);
    let redirect = Some(IpcResponse::DecisionWithRedirect { decision: 0, redirect_path: None });
    assert_eq!(RemoteEvaluator::decision_outcome(redirect), DECISION_ALLOW);
    assert_eq!(RemoteEvaluator::decision_outcome(None), DECISION_ALLOW);
}

#[test]
fn remote_evaluator_keeps_its_socket_path() {
    let r = RemoteEvaluator::new("/tmp/astraea.sock");
    assert_eq!(r.socket_path(), "/tmp/astraea.sock");
}

#[test]
fn requests_hold_their_fields() {
    let r = IpcRequest::RegisterDns {
        package: "p".to_string(),
        domain: "d".to_string(),
        ip: "1.2.3.4".to_string(),
        ttl: 30,
    };
    assert!(matches!(r, IpcRequest::RegisterDns { ttl: 30, .. }));
}

struct Fixed;

impl astraea::evaluator::Evaluator for Fixed {
    fn evaluate_fs(&self, _package: &str, path: &str) -> (i32, Option<String>) {
        if path == "s" { (DECISION_SPOOF, Some("mock".to_string())) } else { (DECISION_DENY, Some("ignored".to_string())) }
    }
    fn evaluate_dlopen(&self, _package: &str, _path: &str) -> i32 {
        DECISION_ALLOW
    }
    fn evaluate_net(&self, _package: &str, _host: &str, port: u16, _action: i32, _protocol: i32) -> i32 {
        if port == 443 { DECISION_ALLOW } else { DECISION_DENY }
    }
    fn evaluate_env(&self, _package: &str, _key: &str) -> i32 {
        DECISION_DENY
    }
    fn evaluate_proc(&self, _package: &str, _binary: &str) -> i32 {
        DECISION_ALLOW
    }
    fn register_dns(&self, _package: &str, _domain: &str, _ip: &str, _ttl: u32) {}
}

#[test]
fn daemon_answers_each_kind_of_request() {
    let e = Fixed;
    let fs = |path: &str| astraea::ipc::answer(&e, IpcRequest::EvaluateFs { package: "p".to_string(), path: path.to_string() });
    assert!(matches!(fs("s"), IpcResponse::DecisionWithRedirect { decision: 2, redirect_path: Some(ref m) } if m == "mock"));
    assert!(matches!(fs("x"), IpcResponse::Decision(0)));
    let net = IpcRequest::EvaluateNet { package: "p".to_string(), host: "h".to_string(), port: 443, action: 0, protocol: 6 };
    assert!(matches!(astraea::ipc::answer(&e, net), IpcResponse::Decision(1)));
    let env = IpcRequest::EvaluateEnv { package: "p".to_string(), key: "K".to_string() };
    assert!(matches!(astraea::ipc::answer(&e, env), IpcResponse::Decision(0)));
    let dns = IpcRequest::RegisterDns { package: "p".to_string(), domain: "d".to_string(), ip: "1.1.1.1".to_string(), ttl: 5 };
    assert!(matches!(astraea::ipc::answer(&e, dns), IpcResponse::Ack));
}
