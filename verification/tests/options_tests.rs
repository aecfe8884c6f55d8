use sshauth::auth_options::{
    cert_option_list, handle_permit, next_pair, ParseError, SshAuthError, SshAuthOpt,
    OPTIONS_CRITICAL, OPTIONS_EXTENSIONS,
};

fn pair(name: &str, value: &[u8]) -> Vec<u8> {
    let mut v: Vec<u8> = Vec::new();
    v.extend_from_slice(&(name.len() as u32).to_be_bytes());
    v.extend_from_slice(name.as_bytes());
    v.extend_from_slice(&(value.len() as u32).to_be_bytes());
    v.extend_from_slice(value);
    v
}

fn fresh() -> SshAuthOpt {
    *SshAuthOpt::new().unwrap()
}

#[test]
fn test_decode_empty_blob() {
    let mut opts = fresh();
    let blob: Vec<u8> = Vec::new();
    assert_eq!(cert_option_list(&mut opts, &blob, OPTIONS_CRITICAL, true), Ok(()));
    assert!(!opts.permit_pty_flag);
    assert!(opts.force_command.is_none());
}

#[test]
fn test_decode_extension_flags() {
    let mut opts = fresh();
    let mut blob = pair("permit-pty", b"");
    blob.extend_from_slice(&pair("permit-user-rc", b""));
    blob.extend_from_slice(&pair("no-touch-required", b""));
    assert_eq!(cert_option_list(&mut opts, &blob, OPTIONS_EXTENSIONS, false), Ok(()));
    assert!(opts.permit_pty_flag);
    assert!(opts.permit_user_rc);
    assert!(opts.no_require_user_presence);
    assert!(!opts.permit_x11_forwarding_flag);
    assert!(!opts.permit_agent_forwarding_flag);
    assert!(!opts.permit_port_forwarding_flag);
}

#[test]
fn test_decode_unknown_critical_fails() {
    let mut opts = fresh();
    let blob = pair("unknown-option@example.com", b"");
    assert_eq!(
        cert_option_list(&mut opts, &blob, OPTIONS_CRITICAL, true),
        Err(ParseError::OptionCorruption)
    );
}

#[test]
fn test_decode_unknown_extension_is_skipped() {
    let mut opts = fresh();
    let blob = pair("unknown-option@example.com", b"payload");
    assert_eq!(cert_option_list(&mut opts, &blob, OPTIONS_EXTENSIONS, false), Ok(()));
    assert!(!opts.permit_pty_flag);
    assert!(!opts.permit_user_rc);
    assert!(!opts.no_require_user_presence);
    assert!(!opts.require_verify);
    assert!(opts.force_command.is_none());
    assert!(opts.required_from_host_cert.is_none());
}

#[test]
fn test_decode_force_command() {
    let mut opts = fresh();
    let blob = pair("force-command", b"/usr/bin/true");
    assert_eq!(cert_option_list(&mut opts, &blob, OPTIONS_CRITICAL, true), Ok(()));
    assert_eq!(opts.force_command.as_deref(), Some("/usr/bin/true"));
}

#[test]
fn test_decode_duplicate_force_command_fails() {
    let mut opts = fresh();
    let mut blob = pair("force-command", b"/bin/a");
    blob.extend_from_slice(&pair("force-command", b"/bin/b"));
    assert_eq!(
        cert_option_list(&mut opts, &blob, OPTIONS_CRITICAL, true),
        Err(ParseError::MultipleOptions("force-command".to_string()))
    );
}

#[test]
fn test_decode_flag_with_value_is_corrupt() {
    let mut opts = fresh();
    let blob = pair("permit-pty", b"x");
    assert_eq!(
        cert_option_list(&mut opts, &blob, OPTIONS_EXTENSIONS, false),
        Err(ParseError::OptionCorruption)
    );
}

#[test]
fn test_decode_verify_required() {
    let mut opts = fresh();
    let blob = pair("verify-required", b"");
    assert_eq!(cert_option_list(&mut opts, &blob, OPTIONS_CRITICAL, true), Ok(()));
    assert!(opts.require_verify);
}

#[test]
fn test_decode_source_address() {
    let mut opts = fresh();
    let blob = pair("source-address", b"10.0.0.0/8,192.168.0.0/16");
    assert_eq!(cert_option_list(&mut opts, &blob, OPTIONS_CRITICAL, true), Ok(()));
    assert_eq!(
        opts.required_from_host_cert.as_deref(),
        Some("10.0.0.0/8,192.168.0.0/16")
    );
}

#[test]
fn test_decode_source_address_bad_syntax_fails() {
    let mut opts = fresh();
    let blob = pair("source-address", b"10.0.0.0");
    assert_eq!(
        cert_option_list(&mut opts, &blob, OPTIONS_CRITICAL, true),
        Err(ParseError::OptionCorruption)
    );
}

#[test]
fn test_decode_duplicate_source_address_fails() {
    let mut opts = fresh();
    let mut blob = pair("source-address", b"10.0.0.0/8");
    blob.extend_from_slice(&pair("source-address", b"172.16.0.0/12"));
    assert_eq!(
        cert_option_list(&mut opts, &blob, OPTIONS_CRITICAL, true),
        Err(ParseError::MultipleOptions("source-address".to_string()))
    );
}

#[test]
fn test_decode_truncated_blob_fails() {
    let mut opts = fresh();
    let mut blob = pair("permit-pty", b"");
    blob.pop();
    assert_eq!(
        cert_option_list(&mut opts, &blob, OPTIONS_EXTENSIONS, false),
        Err(ParseError::InvalidBuffer)
    );
    let mut opts2 = fresh();
    let short: Vec<u8> = vec![0, 0, 0];
    assert_eq!(
        cert_option_list(&mut opts2, &short, OPTIONS_EXTENSIONS, false),
        Err(ParseError::InvalidBuffer)
    );
}

#[test]
fn test_next_pair_walks_the_blob() {
    let mut blob = pair("force-command", b"/bin/sh");
    blob.extend_from_slice(&pair("permit-pty", b""));
    let mut i: usize = 0;
    let (name, value) = next_pair(&blob, &mut i).unwrap().unwrap();
    assert_eq!(name, "force-command");
    assert_eq!(value, b"/bin/sh".to_vec());
    let (name2, value2) = next_pair(&blob, &mut i).unwrap().unwrap();
    assert_eq!(name2, "permit-pty");
    assert!(value2.is_empty());
    assert_eq!(next_pair(&blob, &mut i), Ok(None));
}

#[test]
fn test_new_is_fully_restrictive() {
    let opts = fresh();
    assert_eq!(opts.force_tun_device, -1);
    assert!(!opts.permit_pty_flag);
    assert!(!opts.permit_user_rc);
    assert!(!opts.permit_port_forwarding_flag);
    assert!(!opts.permit_agent_forwarding_flag);
    assert!(!opts.permit_x11_forwarding_flag);
    assert_eq!(opts.npermitopen, 0);
    assert_eq!(opts.npermitlisten, 0);
}

#[test]
fn test_new_with_keys_defaults_is_permissive() {
    let opts = *SshAuthOpt::new_with_keys_defaults().unwrap();
    assert!(opts.permit_pty_flag);
    assert!(opts.permit_user_rc);
    assert!(opts.permit_port_forwarding_flag);
    assert!(opts.permit_agent_forwarding_flag);
    assert!(opts.permit_x11_forwarding_flag);
    assert!(!opts.require_verify);
    assert_eq!(opts.force_tun_device, -1);
}

#[test]
fn test_free_leaves_record_unchanged() {
    let mut opts = *SshAuthOpt::new_with_keys_defaults().unwrap();
    opts.free();
    assert!(opts.permit_pty_flag);
    assert_eq!(opts.force_tun_device, -1);
}

#[test]
fn test_permit_bare_port_rewritten() {
    let mut optsp = vec!["2222".to_string()];
    let mut permits: Vec<String> = Vec::new();
    let mut n: usize = 0;
    assert_eq!(handle_permit(&mut optsp, true, &mut permits, &mut n), Ok(()));
    assert_eq!(permits, vec!["*:2222".to_string()]);
    assert_eq!(n, 1);
    assert!(optsp.is_empty());
}

#[test]
fn test_permit_bare_port_without_allowance_fails() {
    let mut optsp = vec!["2222".to_string()];
    let mut permits: Vec<String> = Vec::new();
    let mut n: usize = 0;
    assert_eq!(
        handle_permit(&mut optsp, false, &mut permits, &mut n),
        Err(SshAuthError::InvalidPermissionHostname)
    );
    assert!(permits.is_empty());
    assert_eq!(n, 0);
}

#[test]
fn test_permit_records_host_and_port() {
    let mut optsp = vec!["example.org:22".to_string(), "localhost:*".to_string()];
    let mut permits: Vec<String> = Vec::new();
    let mut n: usize = 0;
    assert_eq!(handle_permit(&mut optsp, false, &mut permits, &mut n), Ok(()));
    assert_eq!(handle_permit(&mut optsp, false, &mut permits, &mut n), Ok(()));
    assert_eq!(
        permits,
        vec!["localhost:*".to_string(), "example.org:22".to_string()]
    );
    assert_eq!(n, 2);
}

#[test]
fn test_permit_rejects_bad_port() {
    let mut optsp = vec!["host:70000".to_string()];
    let mut permits: Vec<String> = Vec::new();
    let mut n: usize = 0;
    assert_eq!(
        handle_permit(&mut optsp, false, &mut permits, &mut n),
        Err(SshAuthError::InvalidPermissionPort)
    );
}

#[test]
fn test_permit_rejects_empty_host() {
    let mut optsp = vec![":22".to_string()];
    let mut permits: Vec<String> = Vec::new();
    let mut n: usize = 0;
    assert_eq!(
        handle_permit(&mut optsp, false, &mut permits, &mut n),
        Err(SshAuthError::InvalidPermissionHostname)
    );
}

#[test]
fn test_permit_rejects_overlong_host() {
    let host = "h".repeat(256);
    let mut optsp = vec![format!("{}:22", host)];
    let mut permits: Vec<String> = Vec::new();
    let mut n: usize = 0;
    assert_eq!(
        handle_permit(&mut optsp, false, &mut permits, &mut n),
        Err(SshAuthError::InvalidPermissionHostname)
    );
}

#[test]
fn test_permit_empty_stack_fails() {
    let mut optsp: Vec<String> = Vec::new();
    let mut permits: Vec<String> = Vec::new();
    let mut n: usize = 0;
    assert_eq!(
        handle_permit(&mut optsp, false, &mut permits, &mut n),
        Err(SshAuthError::UnknownError)
    );
}

#[test]
fn test_permit_cap_enforced() {
    let mut permits: Vec<String> = Vec::new();
    let mut n: usize = 0;
    for k in 0..100 {
        let mut optsp = vec![format!("host{}:22", k)];
        assert_eq!(handle_permit(&mut optsp, false, &mut permits, &mut n), Ok(()));
    }
    assert_eq!(n, 100);
    assert_eq!(permits.len(), 100);
    // the 101st entry must fail and leave the list at exactly the cap
    let mut optsp = vec!["overflow:22".to_string()];
    assert_eq!(
        handle_permit(&mut optsp, false, &mut permits, &mut n),
        Err(SshAuthError::TooManyPermissions)
    );
    assert_eq!(permits.len(), 100);
    assert_eq!(n, 100);
    assert_eq!(optsp.len(), 1);
}

#[test]
fn test_decode_both_namespaces() {
    let mut opts = fresh();
    let mut blob = pair("permit-pty", b"");
    blob.extend_from_slice(&pair("force-command", b"/bin/date"));
    let both = OPTIONS_CRITICAL | OPTIONS_EXTENSIONS;
    assert_eq!(cert_option_list(&mut opts, &blob, both, true), Ok(()));
    assert!(opts.permit_pty_flag);
    assert_eq!(opts.force_command.as_deref(), Some("/bin/date"));
}

#[test]
fn test_next_pair_truncation_leaves_cursor() {
    let mut blob = pair("permit-pty", b"");
    blob.pop();
    let mut i: usize = 0;
    assert_eq!(next_pair(&blob, &mut i), Err(ParseError::InvalidBuffer));
    assert_eq!(i, 0);
}

#[test]
fn test_decode_error_leaves_restrictive_record() {
    // a failed decode must not leave a partial record: the record comes
    // back fully restrictive even when decoding started permissive
    let mut opts = *SshAuthOpt::new_with_keys_defaults().unwrap();
    let mut blob = pair("force-command", b"/bin/a");
    blob.extend_from_slice(&pair("force-command", b"/bin/b"));
    assert!(cert_option_list(&mut opts, &blob, OPTIONS_CRITICAL, true).is_err());
    assert!(opts.force_command.is_none());
    assert!(!opts.permit_pty_flag);
    assert!(!opts.permit_user_rc);
    assert!(!opts.permit_port_forwarding_flag);
    assert_eq!(opts.force_tun_device, -1);
}

#[test]
fn test_permit_port_with_leading_zeros() {
    let mut optsp = vec!["host:007".to_string()];
    let mut permits: Vec<String> = Vec::new();
    let mut n: usize = 0;
    assert_eq!(handle_permit(&mut optsp, false, &mut permits, &mut n), Ok(()));
    assert_eq!(permits, vec!["host:007".to_string()]);
    assert_eq!(n, 1);
}
