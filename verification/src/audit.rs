//! Audit event classification. The engine exposes structured events and
//! names; attaching process identity and emitting records is the hosting
//! session's business.

use vstd::prelude::*;
use vstd::string::*;
use crate::strutil::str_eq;

verus! {

/// The audit events a session can report.
#[derive(Debug, PartialEq, Eq, Copy, Clone, Structural)]
pub enum SshAuditEvent {
    LoginExceedMaxTries,
    LoginRootDenied,
    AuthSuccess,
    AuthFailNone,
    AuthFailPasswd,
    AuthFailKbdInt,
    AuthFailPubKey,
    AuthFailHostBased,
    AuthFailGssApi,
    InvalidUser,
    NoLogin,
    ConnectionClose,
    ConnectionAbandon,
    AuditUnknown,
}

/// The log key of each audit event.
pub open spec fn lookup_spec(e: SshAuditEvent) -> Seq<char> {
    match e {
        SshAuditEvent::LoginExceedMaxTries => "LOGIN_EXCEED_MAXTRIES"@,
        SshAuditEvent::LoginRootDenied => "LOGIN_ROOT_DENIED"@,
        SshAuditEvent::AuthSuccess => "AUTH_SUCCESS"@,
        SshAuditEvent::AuthFailNone => "AUTH_FAIL_NONE"@,
        SshAuditEvent::AuthFailPasswd => "AUTH_FAIL_PASSWD"@,
        SshAuditEvent::AuthFailKbdInt => "AUTH_FAIL_KBDINT"@,
        SshAuditEvent::AuthFailPubKey => "AUTH_FAIL_PUBKEY"@,
        SshAuditEvent::AuthFailHostBased => "AUTH_FAIL_HOSTBASED"@,
        SshAuditEvent::AuthFailGssApi => "AUTH_FAIL_GSSAPI"@,
        SshAuditEvent::InvalidUser => "INVALID_USER"@,
        SshAuditEvent::NoLogin => "NOLOGIN"@,
        SshAuditEvent::ConnectionClose => "CONNECTION_CLOSE"@,
        SshAuditEvent::ConnectionAbandon => "CONNECTION_ABANDON"@,
        SshAuditEvent::AuditUnknown => "AUDIT_UNKNOWN"@,
    }
}

impl SshAuditEvent {
    /// The stable textual key used when logging this event.
    pub fn lookup(&self) -> (r: &'static str)
        ensures
            r@ == lookup_spec(*self),
    {
        match self {
            SshAuditEvent::LoginExceedMaxTries => "LOGIN_EXCEED_MAXTRIES",
            SshAuditEvent::LoginRootDenied => "LOGIN_ROOT_DENIED",
            SshAuditEvent::AuthSuccess => "AUTH_SUCCESS",
            SshAuditEvent::AuthFailNone => "AUTH_FAIL_NONE",
            SshAuditEvent::AuthFailPasswd => "AUTH_FAIL_PASSWD",
            SshAuditEvent::AuthFailKbdInt => "AUTH_FAIL_KBDINT",
            SshAuditEvent::AuthFailPubKey => "AUTH_FAIL_PUBKEY",
            SshAuditEvent::AuthFailHostBased => "AUTH_FAIL_HOSTBASED",
            SshAuditEvent::AuthFailGssApi => "AUTH_FAIL_GSSAPI",
            SshAuditEvent::InvalidUser => "INVALID_USER",
            SshAuditEvent::NoLogin => "NOLOGIN",
            SshAuditEvent::ConnectionClose => "CONNECTION_CLOSE",
            SshAuditEvent::ConnectionAbandon => "CONNECTION_ABANDON",
            SshAuditEvent::AuditUnknown => "AUDIT_UNKNOWN",
        }
    }
}

/// The authentication context the session knows the peer by.
pub struct AuthContext {
    pub user: Option<String>,
    pub valid: bool,
}

/// The login record line, if a tty is attached.
pub struct LoginInfo {
    pub line: Option<String>,
}

/// The failure event that corresponds to an authentication method name.
pub open spec fn classify_auth_spec(method: Seq<char>) -> SshAuditEvent {
    if method == "none"@ {
        SshAuditEvent::AuthFailNone
    } else if method == "password"@ {
        SshAuditEvent::AuthFailPasswd
    } else if method == "publickey"@ || method == "rsa"@ {
        SshAuditEvent::AuthFailPubKey
    } else if method == "keyboard-interactive"@ || method == "challenge-response"@ {
        SshAuditEvent::AuthFailKbdInt
    } else if method == "hostbased"@ || method == "rhosts-rsa"@ {
        SshAuditEvent::AuthFailHostBased
    } else if method == "gssapi-with-mic"@ {
        SshAuditEvent::AuthFailGssApi
    } else {
        SshAuditEvent::AuditUnknown
    }
}

/// Maps an authentication method name to its failure event.
pub fn audit_classify_auth(method: &str) -> (r: SshAuditEvent)
    ensures
        r == classify_auth_spec(method@),
{
    if str_eq(method, "none") {
        SshAuditEvent::AuthFailNone
    } else if str_eq(method, "password") {
        SshAuditEvent::AuthFailPasswd
    } else if str_eq(method, "publickey") || str_eq(method, "rsa") {
        SshAuditEvent::AuthFailPubKey
    } else if str_eq(method, "keyboard-interactive") || str_eq(method, "challenge-response") {
        SshAuditEvent::AuthFailKbdInt
    } else if str_eq(method, "hostbased") || str_eq(method, "rhosts-rsa") {
        SshAuditEvent::AuthFailHostBased
    } else if str_eq(method, "gssapi-with-mic") {
        SshAuditEvent::AuthFailGssApi
    } else {
        SshAuditEvent::AuditUnknown
    }
}

/// The user name to attach to an audit record.
pub open spec fn audit_username_spec(ctxt: Option<AuthContext>) -> Seq<char> {
    match ctxt {
        Some(c) => if c.valid && c.user is Some {
            c.user.unwrap()@
        } else {
            "(unknown user)"@
        },
        None => "(unknown user)"@,
    }
}

/// The user name of a validated context, else a fixed placeholder.
pub fn audit_username(authctxt: Option<&AuthContext>) -> (r: String)
    ensures
        r@ == audit_username_spec(match authctxt {
            Some(c) => Some(*c),
            None => None,
        }),
{
    match authctxt {
        Some(c) => {
            if c.valid {
                match &c.user {
                    Some(u) => u.clone(),
                    None => "(unknown user)".to_owned(),
                }
            } else {
                "(unknown user)".to_owned()
            }
        },
        None => "(unknown user)".to_owned(),
    }
}

} // verus!
