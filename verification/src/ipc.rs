//! The messages between an intercepted process and the policy daemon, their
//! length-prefixed framing, and the remote evaluator's reading of replies.

use vstd::prelude::*;
use crate::evaluator::{Evaluator, DECISION_ALLOW, DECISION_SPOOF};
use crate::text::{from_chars, to_chars};

verus! {

/// A question to the daemon.
#[derive(Debug)]
pub enum IpcRequest {
    EvaluateFs { package: String, path: String },
    EvaluateDlopen { package: String, path: String },
    EvaluateNet { package: String, host: String, port: u16, action: i32, protocol: i32 },
    EvaluateEnv { package: String, key: String },
    EvaluateProc { package: String, binary: String },
    RegisterDns { package: String, domain: String, ip: String, ttl: u32 },
}

/// The daemon's answer.
#[derive(Debug)]
pub enum IpcResponse {
    Decision(i32),
    DecisionWithRedirect { decision: i32, redirect_path: Option<String> },
    Ack,
}

/// The daemon's answer to a file request: the redirect is sent along only
/// for a spoofed read.
pub fn fs_response(decision: i32, redirect_path: Option<String>) -> (r: IpcResponse)
    ensures
        decision == DECISION_SPOOF ==> r == (IpcResponse::DecisionWithRedirect {
            decision,
            redirect_path,
        }),
        decision != DECISION_SPOOF ==> r == IpcResponse::Decision(decision),
{
    if decision == DECISION_SPOOF {
        IpcResponse::DecisionWithRedirect { decision, redirect_path }
    } else {
        IpcResponse::Decision(decision)
    }
}

/// The daemon's answer to one request: the evaluator's own decision for the
/// kind of access asked about, made on the request's package and target (a
/// file request answered as [`fs_response`] gives it, so a redirect goes along
/// only with a spoof decision), and an acknowledgement of a DNS registration
/// once the evaluator has recorded it. Each clause names the evaluator method
/// whose result the answer carries.
pub fn answer<E: Evaluator>(evaluator: &E, request: IpcRequest) -> (r: IpcResponse)
    ensures
        match request {
            IpcRequest::EvaluateFs { package, path } => exists|ps: &str, qs: &str, out: (i32, Option<String>)|
                ps@ == package@ && qs@ == path@ && #[trigger] call_ensures(
                    E::evaluate_fs,
                    (evaluator, ps, qs),
                    out,
                ) && if out.0 == DECISION_SPOOF {
                    r == (IpcResponse::DecisionWithRedirect { decision: out.0, redirect_path: out.1 })
                } else {
                    r == IpcResponse::Decision(out.0)
                },
            IpcRequest::EvaluateDlopen { package, path } => exists|ps: &str, qs: &str, d: i32|
                ps@ == package@ && qs@ == path@ && #[trigger] call_ensures(
                    E::evaluate_dlopen,
                    (evaluator, ps, qs),
                    d,
                ) && r == IpcResponse::Decision(d),
            IpcRequest::EvaluateNet { package, host, port, action, protocol } => exists|
                ps: &str,
                hs: &str,
                d: i32,
            |
                ps@ == package@ && hs@ == host@ && #[trigger] call_ensures(
                    E::evaluate_net,
                    (evaluator, ps, hs, port, action, protocol),
                    d,
                ) && r == IpcResponse::Decision(d),
            IpcRequest::EvaluateEnv { package, key } => exists|ps: &str, ks: &str, d: i32|
                ps@ == package@ && ks@ == key@ && #[trigger] call_ensures(
                    E::evaluate_env,
                    (evaluator, ps, ks),
                    d,
                ) && r == IpcResponse::Decision(d),
            IpcRequest::EvaluateProc { package, binary } => exists|ps: &str, bs: &str, d: i32|
                ps@ == package@ && bs@ == binary@ && #[trigger] call_ensures(
                    E::evaluate_proc,
                    (evaluator, ps, bs),
                    d,
                ) && r == IpcResponse::Decision(d),
            IpcRequest::RegisterDns { package, domain, ip, ttl } => exists|
                ps: &str,
                ds: &str,
                is: &str,
            |
                ps@ == package@ && ds@ == domain@ && is@ == ip@ && #[trigger] call_ensures(
                    E::register_dns,
                    (evaluator, ps, ds, is, ttl),
                    (),
                ) && r == IpcResponse::Ack,
        },
        match request {
            IpcRequest::RegisterDns { .. } => r is Ack,
            IpcRequest::EvaluateFs { .. } => r is Decision || (r matches IpcResponse::DecisionWithRedirect {
                decision,
                ..
            } && decision == DECISION_SPOOF),
            _ => r is Decision,
        },
{
    match request {
        IpcRequest::EvaluateFs { package, path } => {
            let (ps, qs) = (package.as_str(), path.as_str());
            let evaluate = E::evaluate_fs;
            let out = evaluate(evaluator, ps, qs);
            assert(call_ensures(E::evaluate_fs, (evaluator, ps, qs), out));
            let (decision, redirect_path) = out;
            fs_response(decision, redirect_path)
        },
        IpcRequest::EvaluateDlopen { package, path } => {
            let (ps, qs) = (package.as_str(), path.as_str());
            let evaluate = E::evaluate_dlopen;
            let d = evaluate(evaluator, ps, qs);
            assert(call_ensures(E::evaluate_dlopen, (evaluator, ps, qs), d));
            IpcResponse::Decision(d)
        },
        IpcRequest::EvaluateNet { package, host, port, action, protocol } => {
            let (ps, hs) = (package.as_str(), host.as_str());
            let evaluate = E::evaluate_net;
            let d = evaluate(evaluator, ps, hs, port, action, protocol);
            assert(call_ensures(E::evaluate_net, (evaluator, ps, hs, port, action, protocol), d));
            IpcResponse::Decision(d)
        },
        IpcRequest::EvaluateEnv { package, key } => {
            let (ps, ks) = (package.as_str(), key.as_str());
            let evaluate = E::evaluate_env;
            let d = evaluate(evaluator, ps, ks);
            assert(call_ensures(E::evaluate_env, (evaluator, ps, ks), d));
            IpcResponse::Decision(d)
        },
        IpcRequest::EvaluateProc { package, binary } => {
            let (ps, bs) = (package.as_str(), binary.as_str());
            let evaluate = E::evaluate_proc;
            let d = evaluate(evaluator, ps, bs);
            assert(call_ensures(E::evaluate_proc, (evaluator, ps, bs), d));
            IpcResponse::Decision(d)
        },
        IpcRequest::RegisterDns { package, domain, ip, ttl } => {
            let (ps, ds, is) = (package.as_str(), domain.as_str(), ip.as_str());
            let record = E::register_dns;
            record(evaluator, ps, ds, is, ttl);
            assert(call_ensures(E::register_dns, (evaluator, ps, ds, is, ttl), ()));
            IpcResponse::Ack
        },
    }
}

/// The four big-endian bytes of `n`.
pub open spec fn be_bytes(n: u32) -> Seq<u8> {
    seq![(n >> 24u32) as u8, (n >> 16u32) as u8, (n >> 8u32) as u8, n as u8]
}

/// The number that four big-endian bytes stand for.
pub open spec fn be_value(b: Seq<u8>) -> u32 {
    ((b[0] as u32) << 24u32) | ((b[1] as u32) << 16u32) | ((b[2] as u32) << 8u32) | (b[3] as u32)
}

/// A message on the wire: its length (cut to 32 bits) as four big-endian
/// bytes, then the message.
pub open spec fn frame_spec(payload: Seq<u8>) -> Seq<u8> {
    be_bytes(payload.len() as u32) + payload
}

/// The framed form of a message (see [`frame_spec`]).
pub fn frame_message(payload: &Vec<u8>) -> (r: Vec<u8>)
    ensures
        r@ == frame_spec(payload@),
{
    let len: u32 = payload.len() as u32;
    let mut r: Vec<u8> = Vec::new();
    r.push((len >> 24u32) as u8);
    r.push((len >> 16u32) as u8);
    r.push((len >> 8u32) as u8);
    r.push(len as u8);
    for i in 0..payload.len()
        invariant
            r@ == be_bytes(len) + payload@.take(i as int),
    {
        r.push(payload[i]);
        assert(payload@.take(i + 1) =~= payload@.take(i as int).push(payload@[i as int]));
    }
    assert(payload@.take(payload.len() as int) =~= payload@);
    r
}

/// The message length announced by a frame header (see [`be_value`]).
pub fn frame_length(header: &[u8; 4]) -> (r: usize)
    ensures
        r == be_value(header@),
{
    let v: u32 = ((header[0] as u32) << 24u32) | ((header[1] as u32) << 16u32) | ((
    header[2] as u32) << 8u32) | (header[3] as u32);
    v as usize
}

/// Law: the header of a framed message announces the message's length
/// (when it is below 2^32), and the message follows the header unchanged.
pub proof fn frame_round_trip(payload: Seq<u8>)
    requires
        payload.len() < 0x1_0000_0000,
    ensures
        be_value(frame_spec(payload).take(4)) == payload.len(),
        frame_spec(payload).skip(4) == payload,
{
    let n = payload.len() as u32;
    assert(((((n >> 24u32) as u8) as u32) << 24u32) | ((((n >> 16u32) as u8) as u32) << 16u32)
        | ((((n >> 8u32) as u8) as u32) << 8u32) | ((n as u8) as u32) == n) by (bit_vector);
    let f = frame_spec(payload);
    assert(f.take(4) =~= be_bytes(n));
    assert(f.skip(4) =~= payload);
}

/// Asks a policy daemon, listening on a Unix socket, for each decision.
pub struct RemoteEvaluator {
    socket_path: String,
}

impl RemoteEvaluator {
    /// The daemon's socket path.
    pub closed spec fn path(&self) -> Seq<char> {
        self.socket_path@
    }

    /// An evaluator that asks the daemon at `socket_path`.
    pub fn new(socket_path: &str) -> (r: Self)
        ensures
            r.path() == socket_path@,
    {
        RemoteEvaluator { socket_path: from_chars(&to_chars(socket_path)) }
    }

    /// The daemon's socket path.
    pub fn socket_path(&self) -> (r: &str)
        ensures
            r@ == self.path(),
    {
        self.socket_path.as_str()
    }

    /// The decision and redirect for a file request, from the daemon's
    /// answer: a redirecting answer as given, a plain decision without
    /// redirect, and no usable answer allows the read.
    pub fn fs_outcome(response: Option<IpcResponse>) -> (r: (i32, Option<String>))
        ensures
            match response {
                Some(IpcResponse::DecisionWithRedirect { decision, redirect_path }) => r == (
                decision, redirect_path),
                Some(IpcResponse::Decision(decision)) => r == (decision, None::<String>),
                _ => r == (DECISION_ALLOW, None::<String>),
            },
    {
        match response {
            Some(IpcResponse::DecisionWithRedirect { decision, redirect_path }) => (
                decision,
                redirect_path,
            ),
            Some(IpcResponse::Decision(decision)) => (decision, None),
            _ => (DECISION_ALLOW, None),
        }
    }

    /// The decision for any other request: the daemon's plain decision, and
    /// anything else allows the access.
    pub fn decision_outcome(response: Option<IpcResponse>) -> (r: i32)
        ensures
            match response {
                Some(IpcResponse::Decision(decision)) => r == decision,
                _ => r == DECISION_ALLOW,
            },
    {
        match response {
            Some(IpcResponse::Decision(decision)) => decision,
            _ => DECISION_ALLOW,
        }
    }
}

} // verus!
