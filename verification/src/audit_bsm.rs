//! BSM-style audit record texts. The engine composes the record lines;
//! handing them to an audit trail, and the name-service lookup of the peer
//! machine, stay with the hosting session.

use vstd::prelude::*;
use vstd::string::*;
use crate::numtext::dec_str;
use crate::strutil::chars_to_string;

verus! {

/// The audit events of the BSM backend.
#[derive(Debug, PartialEq, Eq, Copy, Clone, Structural)]
pub enum AuditEvent {
    SuccessLogin,
    FailedLogin,
    SessionClosed,
}

/// Decimal text of a signed number.
pub open spec fn i32_str(v: int) -> Seq<char> {
    if v < 0 {
        seq!['-'] + dec_str((-v) as nat)
    } else {
        dec_str(v as nat)
    }
}

/// Appends the decimal text of a signed number.
fn push_i32(out: &mut Vec<char>, v: i32)
    ensures
        final(out)@ == old(out)@ + i32_str(v as int),
{
    if v < 0 {
        out.push('-');
        let mag: u32 = if v == i32::MIN {
            0x8000_0000u32
        } else {
            (-v) as u32
        };
        crate::numtext::push_dec(out, mag);
        proof {
            assert(old(out)@ + seq!['-'] + dec_str(mag as nat) =~= old(out)@ + i32_str(v as int));
        }
    } else {
        crate::numtext::push_dec(out, v as u32);
    }
}

/// The text of one raw audit record.
pub open spec fn bsm_record_str(typ: int, string: Seq<char>) -> Seq<char> {
    "BSM audit: typ "@ + i32_str(typ) + " rc 0 \""@ + string + "\""@
}

/// Composes the record line for a raw BSM audit record. The event number is
/// carried by the trail, not the text.
#[allow(unused_variables)]
pub fn bsm_audit_record(typ: i32, string: &str, event_no: i32) -> (r: String)
    ensures
        r@ == bsm_record_str(typ as int, string@),
{
    let mut s = "BSM audit: typ ".to_owned();
    let mut digits: Vec<char> = Vec::new();
    push_i32(&mut digits, typ);
    let d = chars_to_string(&digits);
    s.append(d.as_str());
    s.append(" rc 0 \"");
    s.append(string);
    s.append("\"");
    s
}

/// Composes the session-setup notice for a user.
pub fn bsm_audit_session_setup(user: &str) -> (r: String)
    ensures
        r@ == "BSM audit: session setup for user "@ + user@,
{
    let mut s = "BSM audit: session setup for user ".to_owned();
    s.append(user);
    s
}

/// The text recorded for a bad login.
pub open spec fn bad_login_str(what: Seq<char>, user: Seq<char>) -> Seq<char> {
    "invalid "@ + what + " for user "@ + user
}

/// Composes the record line for an invalid login attempt.
pub fn bsm_audit_bad_login(what: &str, user: &str) -> (r: String)
    ensures
        r@ == bsm_record_str(4, bad_login_str(what@, user@)),
{
    let mut t = "invalid ".to_owned();
    t.append(what);
    t.append(" for user ");
    t.append(user);
    bsm_audit_record(4, t.as_str(), 32800)
}

/// Whether an event is selected for auditing: success events are kept when
/// the outcome is a success, which is the only selection this backend makes.
#[allow(unused_variables)]
pub fn selected(username: Option<&str>, uid: i32, event: AuditEvent, sf: i32) -> (r: i32)
    ensures
        r == (if sf == 0 {
            1int
        } else {
            0int
        }),
{
    if sf == 0 {
        1
    } else {
        0
    }
}

/// The record text of an audit event, for the placeholder unknown user.
pub open spec fn event_text(event: AuditEvent) -> Seq<char> {
    match event {
        AuditEvent::SuccessLogin => "successful login (unknown user)"@,
        AuditEvent::FailedLogin => "failed login attempt (unknown user)"@,
        AuditEvent::SessionClosed => "session closed for (unknown user)"@,
    }
}

/// Composes the record line for an audit event.
pub fn audit_event(event: AuditEvent) -> (r: String)
    ensures
        r@ == bsm_record_str(0, event_text(event)),
{
    let text: String = match event {
        AuditEvent::SuccessLogin => "successful login (unknown user)".to_owned(),
        AuditEvent::FailedLogin => "failed login attempt (unknown user)".to_owned(),
        AuditEvent::SessionClosed => "session closed for (unknown user)".to_owned(),
    };
    bsm_audit_record(0, text.as_str(), 32800)
}

/// Composes the connection notice for a peer address and port.
pub fn audit_connection_from(host: &str, port: i32) -> (r: String)
    ensures
        r@ == "BSM audit: connection from "@ + host@ + " port "@ + i32_str(port as int),
{
    let mut s = "BSM audit: connection from ".to_owned();
    s.append(host);
    s.append(" port ");
    let mut digits: Vec<char> = Vec::new();
    push_i32(&mut digits, port);
    let d = chars_to_string(&digits);
    s.append(d.as_str());
    s
}

/// Composes the connection notice; the machine lookup that follows it is
/// the hosting session's business.
pub fn audit_connection_from_host(host: &str, port: i32) -> (r: String)
    ensures
        r@ == "BSM audit: connection from "@ + host@ + " port "@ + i32_str(port as int),
{
    audit_connection_from(host, port)
}

/// Composes the record line for a login event.
pub fn audit_login_event(event: AuditEvent) -> (r: String)
    ensures
        r@ == bsm_record_str(0, event_text(event)),
{
    audit_event(event)
}

} // verus!
