//! Audit events: what was attempted, by which package, and the decision;
//! the texts that name each kind of target; and the channel that carries
//! events to the background writer.

use vstd::prelude::*;
use std::sync::mpsc::Sender;
use crate::text::{chars_concat, from_chars, to_chars};

verus! {

/// One decision, as it is logged.
#[derive(Debug)]
pub struct AuditEvent {
    pub package: String,
    pub action: String,
    pub target: String,
    pub allowed: bool,
}

/// Where the background writer sends events: a file, or a Unix socket.
#[derive(Debug)]
pub enum AuditSink {
    File(String),
    Uds(String),
}

#[verifier::external_type_specification]
#[verifier::external_body]
#[verifier::reject_recursive_types(T)]
pub struct ExSender<T>(Sender<T>);

/// The plain values of an audit event: package, action, target, decision.
pub open spec fn event_view(e: AuditEvent) -> (Seq<char>, Seq<char>, Seq<char>, bool) {
    (e.package@, e.action@, e.target@, e.allowed)
}

/// Hands `value` to the logger's channel (`Sender::send`) and records it as
/// handed over. The contract claims only that `value` is the next event given
/// to `send` on the logger's sender, which stays the same; whether the
/// receiving end gets it is not claimed (`send` returns an error, and drops
/// the value, once the receiver is gone).
#[verifier::external_body]
fn channel_send(logger: &mut AuditLogger, value: AuditEvent)
    ensures
        final(logger).sender() == old(logger).sender(),
        final(logger).sent() == old(logger).sent().push(event_view(value)),
{
    let _ = logger.tx.send(value);
}

/// Sends audit events to a background writer. Its record of sent events is
/// extended only by [`channel_send`], the call that hands an event over.
pub struct AuditLogger {
    tx: Sender<AuditEvent>,
    sent: Ghost<Seq<(Seq<char>, Seq<char>, Seq<char>, bool)>>,
}

impl AuditLogger {
    /// The sending end of the channel the events go over.
    pub closed spec fn sender(&self) -> Sender<AuditEvent> {
        self.tx
    }

    /// The events handed to the channel so far, in order.
    pub closed spec fn sent(&self) -> Seq<(Seq<char>, Seq<char>, Seq<char>, bool)> {
        self.sent@
    }

    /// A logger that sends its events over `tx`.
    pub fn with_channel(tx: Sender<AuditEvent>) -> (r: Self)
        ensures
            r.sender() == tx,
            r.sent() == Seq::<(Seq<char>, Seq<char>, Seq<char>, bool)>::empty(),
    {
        AuditLogger { tx, sent: Ghost(Seq::empty()) }
    }

    /// Queues one event for the writer: it is handed to the channel after
    /// the events sent before it.
    pub fn log(&mut self, event: AuditEvent)
        ensures
            final(self).sender() == old(self).sender(),
            final(self).sent() == old(self).sent().push(event_view(event)),
    {
        channel_send(self, event);
    }
}

/// The decimal digit of `d` (below 10).
pub open spec fn digit_char(d: nat) -> char {
    ('0' as nat + d) as char
}

/// The decimal text of `n`, without leading zeros.
pub open spec fn decimal_spec(n: nat) -> Seq<char>
    decreases n,
{
    if n < 10 {
        seq![digit_char(n)]
    } else {
        decimal_spec(n / 10).push(digit_char(n % 10))
    }
}

/// The decimal text of `n`, as `{}` formats it.
pub fn decimal(n: u64) -> (r: Vec<char>)
    ensures
        r@ == decimal_spec(n as nat),
    decreases n,
{
    let d = n % 10;
    let c = if d == 0 {
        '0'
    } else if d == 1 {
        '1'
    } else if d == 2 {
        '2'
    } else if d == 3 {
        '3'
    } else if d == 4 {
        '4'
    } else if d == 5 {
        '5'
    } else if d == 6 {
        '6'
    } else if d == 7 {
        '7'
    } else if d == 8 {
        '8'
    } else {
        '9'
    };
    assert(c == digit_char(d as nat));
    if n < 10 {
        let r = vec![c];
        assert(r@ =~= seq![digit_char(n as nat)]);
        r
    } else {
        let mut r = decimal(n / 10);
        r.push(c);
        r
    }
}

/// The name of a socket action code: `bind` for 1, `connect` otherwise.
pub open spec fn action_name_spec(code: i32) -> Seq<char> {
    if code == 1 {
        "bind"@
    } else {
        "connect"@
    }
}

/// The name of a protocol code: `tcp` for 6, `udp` for 17, `any` otherwise.
pub open spec fn protocol_name_spec(code: i32) -> Seq<char> {
    if code == 6 {
        "tcp"@
    } else if code == 17 {
        "udp"@
    } else {
        "any"@
    }
}

/// The name of a socket action code (see [`action_name_spec`]).
pub fn action_name(code: i32) -> (r: &'static str)
    ensures
        r@ == action_name_spec(code),
{
    if code == 1 {
        "bind"
    } else {
        "connect"
    }
}

/// The name of a protocol code (see [`protocol_name_spec`]).
pub fn protocol_name(code: i32) -> (r: &'static str)
    ensures
        r@ == protocol_name_spec(code),
{
    if code == 6 {
        "tcp"
    } else if code == 17 {
        "udp"
    } else {
        "any"
    }
}

/// The logged target of a file access: `spoof:` or `read:` before the path.
pub open spec fn fs_target_spec(path: Seq<char>, spoofed: bool) -> Seq<char> {
    (if spoofed {
        "spoof:"@
    } else {
        "read:"@
    }) + path
}

/// The logged target of a file access (see [`fs_target_spec`]).
pub fn fs_audit_target(path: &str, spoofed: bool) -> (r: String)
    ensures
        r@ == fs_target_spec(path@, spoofed),
{
    let head = if spoofed {
        to_chars("spoof:")
    } else {
        to_chars("read:")
    };
    from_chars(&chars_concat(&head, &to_chars(path)))
}

/// The logged target of a network access: `action:protocol:host:port`.
pub open spec fn net_target_spec(host: Seq<char>, port: u16, action_code: i32, protocol_code: i32) -> Seq<
    char,
> {
    action_name_spec(action_code) + seq![':'] + protocol_name_spec(protocol_code) + seq![':'] + host
        + seq![':'] + decimal_spec(port as nat)
}

/// The logged target of a network access (see [`net_target_spec`]).
pub fn net_audit_target(host: &str, port: u16, action_code: i32, protocol_code: i32) -> (r: String)
    ensures
        r@ == net_target_spec(host@, port, action_code, protocol_code),
{
    let colon: Vec<char> = vec![':'];
    assert(colon@ =~= seq![':']);
    let mut v = to_chars(action_name(action_code));
    v = chars_concat(&v, &colon);
    v = chars_concat(&v, &to_chars(protocol_name(protocol_code)));
    v = chars_concat(&v, &colon);
    v = chars_concat(&v, &to_chars(host));
    v = chars_concat(&v, &colon);
    v = chars_concat(&v, &decimal(port as u64));
    from_chars(&v)
}

/// The logged target of a stack-depth anomaly: `depth:` and the depth.
pub fn depth_audit_target(frame_count: u32) -> (r: String)
    ensures
        r@ == "depth:"@ + decimal_spec(frame_count as nat),
{
    from_chars(&chars_concat(&to_chars("depth:"), &decimal(frame_count as u64)))
}

/// An audit event with the given fields.
pub fn audit_event(package: &str, action: &str, target: String, allowed: bool) -> (r: AuditEvent)
    ensures
        r.package@ == package@,
        r.action@ == action@,
        r.target@ == target@,
        r.allowed == allowed,
{
    AuditEvent { package: from_chars(&to_chars(package)), action: from_chars(&to_chars(action)), target, allowed }
}

} // verus!
