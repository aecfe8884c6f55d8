use sshauth::audit::{audit_classify_auth, audit_username, AuthContext, SshAuditEvent};
use sshauth::audit_bsm;
use sshauth::audit_linux;
use sshauth::audit_linux::audit_event_selected;
use sshauth::audit_linux::SshAuditEvent as LinuxAuditEvent;
use sshauth::auth_bsdauth::{
    bsdauth_free_ctx, bsdauth_init_ctx, bsdauth_query, bsdauth_respond, Authctxt,
    SimpleAuthSession,
};

#[test]
fn test_lookup_names() {
    assert_eq!(SshAuditEvent::AuthSuccess.lookup(), "AUTH_SUCCESS");
    assert_eq!(SshAuditEvent::LoginExceedMaxTries.lookup(), "LOGIN_EXCEED_MAXTRIES");
    assert_eq!(SshAuditEvent::ConnectionAbandon.lookup(), "CONNECTION_ABANDON");
    assert_eq!(SshAuditEvent::AuditUnknown.lookup(), "AUDIT_UNKNOWN");
}

#[test]
fn test_classify_auth() {
    assert_eq!(audit_classify_auth("none"), SshAuditEvent::AuthFailNone);
    assert_eq!(audit_classify_auth("password"), SshAuditEvent::AuthFailPasswd);
    assert_eq!(audit_classify_auth("publickey"), SshAuditEvent::AuthFailPubKey);
    assert_eq!(audit_classify_auth("rsa"), SshAuditEvent::AuthFailPubKey);
    assert_eq!(audit_classify_auth("keyboard-interactive"), SshAuditEvent::AuthFailKbdInt);
    assert_eq!(audit_classify_auth("challenge-response"), SshAuditEvent::AuthFailKbdInt);
    assert_eq!(audit_classify_auth("hostbased"), SshAuditEvent::AuthFailHostBased);
    assert_eq!(audit_classify_auth("rhosts-rsa"), SshAuditEvent::AuthFailHostBased);
    assert_eq!(audit_classify_auth("gssapi-with-mic"), SshAuditEvent::AuthFailGssApi);
    assert_eq!(audit_classify_auth("sspi"), SshAuditEvent::AuditUnknown);
}

#[test]
fn test_audit_username() {
    assert_eq!(audit_username(None), "(unknown user)");
    let valid = AuthContext { user: Some("alice".to_string()), valid: true };
    assert_eq!(audit_username(Some(&valid)), "alice");
    let invalid = AuthContext { user: Some("mallory".to_string()), valid: false };
    assert_eq!(audit_username(Some(&invalid)), "(unknown user)");
    let nameless = AuthContext { user: None, valid: true };
    assert_eq!(audit_username(Some(&nameless)), "(unknown user)");
}

#[test]
fn test_bsm_record_text() {
    assert_eq!(
        audit_bsm::bsm_audit_record(4, "x", 32800),
        "BSM audit: typ 4 rc 0 \"x\""
    );
    assert_eq!(
        audit_bsm::bsm_audit_record(-7, "y", 0),
        "BSM audit: typ -7 rc 0 \"y\""
    );
}

#[test]
fn test_bsm_bad_login_text() {
    assert_eq!(
        audit_bsm::bsm_audit_bad_login("password", "root"),
        "BSM audit: typ 4 rc 0 \"invalid password for user root\""
    );
}

#[test]
fn test_bsm_event_texts() {
    assert_eq!(
        audit_bsm::audit_event(audit_bsm::AuditEvent::SuccessLogin),
        "BSM audit: typ 0 rc 0 \"successful login (unknown user)\""
    );
    assert_eq!(
        audit_bsm::audit_login_event(audit_bsm::AuditEvent::SessionClosed),
        "BSM audit: typ 0 rc 0 \"session closed for (unknown user)\""
    );
}

#[test]
fn test_bsm_connection_text() {
    assert_eq!(
        audit_bsm::audit_connection_from("10.0.0.9", 22),
        "BSM audit: connection from 10.0.0.9 port 22"
    );
    assert_eq!(
        audit_bsm::audit_connection_from_host("::1", 2222),
        "BSM audit: connection from ::1 port 2222"
    );
}

#[test]
fn test_bsm_session_setup_text() {
    assert_eq!(
        audit_bsm::bsm_audit_session_setup("carol"),
        "BSM audit: session setup for user carol"
    );
}

#[test]
fn test_bsm_selected() {
    assert_eq!(
        audit_bsm::selected(Some("u"), 0, audit_bsm::AuditEvent::SuccessLogin, 0),
        1
    );
    assert_eq!(
        audit_bsm::selected(None, 0, audit_bsm::AuditEvent::FailedLogin, 1),
        0
    );
}

#[test]
fn test_linux_event_selection() {
    assert!(audit_event_selected(&LinuxAuditEvent::SSH_AUTH_FAIL_PASSWD));
    assert!(audit_event_selected(&LinuxAuditEvent::SSH_INVALID_USER));
    assert!(!audit_event_selected(&LinuxAuditEvent::SSH_AUTH_SUCCESS));
    assert!(!audit_event_selected(&LinuxAuditEvent::SSH_CONNECTION_CLOSE));
}

#[test]
fn test_linux_placeholders() {
    let ssh = audit_linux::Ssh {};
    assert_eq!(ssh.remote_ipaddr(), "192.168.1.1");
    assert_eq!(audit_linux::audit_username(), "example_user");
}

#[test]
fn test_bsdauth_query_reuses_challenge() {
    let mut ctx = Authctxt::new("alice".to_string());
    ctx.as_session = Some(SimpleAuthSession { challenge: Some("what?".to_string()) });
    bsdauth_init_ctx(&mut ctx);
    let mut name = String::new();
    let mut info = String::new();
    let mut numprompts: u32 = 0;
    let mut prompts: Vec<String> = Vec::new();
    let mut echo_on: Vec<u32> = Vec::new();
    let rc = bsdauth_query(&mut ctx, &mut name, &mut info, &mut numprompts, &mut prompts, &mut echo_on);
    assert_eq!(rc, 0);
    assert_eq!(numprompts, 1);
    assert_eq!(prompts, vec!["what?".to_string()]);
    assert_eq!(echo_on, vec![0]);
    assert!(name.is_empty());
    assert!(info.is_empty());
}

#[test]
fn test_bsdauth_query_makes_fresh_challenge() {
    let mut ctx = Authctxt::new("alice".to_string());
    let mut name = String::new();
    let mut info = String::new();
    let mut numprompts: u32 = 0;
    let mut prompts: Vec<String> = Vec::new();
    let mut echo_on: Vec<u32> = Vec::new();
    let rc = bsdauth_query(&mut ctx, &mut name, &mut info, &mut numprompts, &mut prompts, &mut echo_on);
    assert_eq!(rc, 0);
    assert_eq!(prompts, vec!["new-challenge".to_string()]);
}

#[test]
fn test_bsdauth_respond_accepts_matching_response() {
    let mut ctx = Authctxt::new("alice".to_string());
    ctx.as_session = Some(SimpleAuthSession { challenge: Some("open sesame".to_string()) });
    let rc = bsdauth_respond(&mut ctx, 1, vec!["open sesame".to_string()]);
    assert_eq!(rc, 0);
    assert!(ctx.as_session.is_none());
}

#[test]
fn test_bsdauth_respond_rejects_wrong_response() {
    let mut ctx = Authctxt::new("alice".to_string());
    ctx.as_session = Some(SimpleAuthSession { challenge: Some("open sesame".to_string()) });
    let rc = bsdauth_respond(&mut ctx, 1, vec!["let me in".to_string()]);
    assert_eq!(rc, -1);
    assert!(ctx.as_session.is_none());
}

#[test]
fn test_bsdauth_respond_guards() {
    let mut invalid = Authctxt::new("alice".to_string());
    invalid.valid = false;
    assert_eq!(bsdauth_respond(&mut invalid, 1, vec!["x".to_string()]), -1);

    let mut no_session = Authctxt::new("alice".to_string());
    assert_eq!(bsdauth_respond(&mut no_session, 1, vec!["x".to_string()]), -1);

    let mut two = Authctxt::new("alice".to_string());
    two.as_session = Some(SimpleAuthSession { challenge: Some("c".to_string()) });
    assert_eq!(
        bsdauth_respond(&mut two, 2, vec!["a".to_string(), "b".to_string()]),
        -1
    );
    assert!(two.as_session.is_some());
}

#[test]
fn test_bsdauth_respond_consumes_session_on_extra_responses() {
    // one claimed response but a longer vector: the round runs, compares
    // the first response, and consumes the session
    let mut ctx = Authctxt::new("alice".to_string());
    ctx.as_session = Some(SimpleAuthSession { challenge: Some("c".to_string()) });
    assert_eq!(
        bsdauth_respond(&mut ctx, 1, vec!["c".to_string(), "extra".to_string()]),
        0
    );
    assert!(ctx.as_session.is_none());

    // one claimed response but an empty vector: fails, session consumed
    let mut empty = Authctxt::new("alice".to_string());
    empty.as_session = Some(SimpleAuthSession { challenge: Some("c".to_string()) });
    assert_eq!(bsdauth_respond(&mut empty, 1, Vec::new()), -1);
    assert!(empty.as_session.is_none());
}

#[test]
fn test_bsdauth_free_ctx_clears_challenge() {
    let mut ctx = Authctxt::new("alice".to_string());
    ctx.as_session = Some(SimpleAuthSession { challenge: Some("secret".to_string()) });
    bsdauth_free_ctx(&mut ctx);
    assert_eq!(
        ctx.as_session.as_ref().unwrap().challenge.as_deref(),
        Some("")
    );
}
