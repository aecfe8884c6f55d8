use sshauth::addrmatch::{
    addr_match_cidr_list, addr_match_list, addr_match_wildcard, AddrMatchResult, CidrListResult,
    LogRateLimitCtx,
};

#[test]
fn test_match_list_allow() {
    assert_eq!(
        addr_match_list(Some("10.0.0.5"), "10.0.0.0/24"),
        AddrMatchResult::Allow
    );
}

#[test]
fn test_match_list_no_match() {
    assert_eq!(
        addr_match_list(Some("10.0.1.5"), "10.0.0.0/24"),
        AddrMatchResult::NoMatch
    );
}

#[test]
fn test_match_list_negation_short_circuits() {
    // the negated rule matches first and denies, despite the broader allow
    // that follows
    assert_eq!(
        addr_match_list(Some("10.0.0.5"), "!10.0.0.0/24,10.0.0.0/16"),
        AddrMatchResult::Deny
    );
}

#[test]
fn test_match_list_later_negation_overrides_allow() {
    assert_eq!(
        addr_match_list(Some("10.0.0.5"), "10.0.0.0/16,!10.0.0.0/24"),
        AddrMatchResult::Deny
    );
}

#[test]
fn test_match_list_empty_list_is_malformed() {
    assert_eq!(
        addr_match_list(Some("1.2.3.4"), ""),
        AddrMatchResult::MalformedEntry
    );
}

#[test]
fn test_match_list_bare_negation_is_malformed() {
    assert_eq!(
        addr_match_list(Some("10.0.0.5"), "!,10.0.0.0/8"),
        AddrMatchResult::MalformedEntry
    );
}

#[test]
fn test_match_list_no_candidate() {
    assert_eq!(addr_match_list(None, "10.0.0.0/24"), AddrMatchResult::NoMatch);
}

#[test]
fn test_match_list_wildcard_fallback() {
    assert_eq!(
        addr_match_list(Some("10.0.0.5"), "10.0.0.*"),
        AddrMatchResult::Allow
    );
    assert_eq!(
        addr_match_list(Some("10.1.0.5"), "10.0.0.*"),
        AddrMatchResult::NoMatch
    );
}

#[test]
fn test_match_list_mixed_families() {
    assert_eq!(
        addr_match_list(Some("2001:db8::5"), "10.0.0.0/8,2001:db8::/32"),
        AddrMatchResult::Allow
    );
}

#[test]
fn test_wildcard_semantics() {
    assert!(addr_match_wildcard("10.0.0.5", "10.0.0.5"));
    assert!(addr_match_wildcard("10.0.0.5", "10.0.0.?"));
    assert!(addr_match_wildcard("10.0.0.5", "*"));
    assert!(addr_match_wildcard("10.0.0.5", "10.*.5"));
    assert!(!addr_match_wildcard("10.0.0.5", "10.0.0"));
    assert!(!addr_match_wildcard("10.0.0.5", "10.0.0.55"));
    assert!(!addr_match_wildcard("10.0.0.5", "?"));
    assert!(addr_match_wildcard("", "*"));
    assert!(!addr_match_wildcard("", "?"));
}

#[test]
fn test_cidr_list_allow_and_no_match() {
    assert_eq!(
        addr_match_cidr_list(Some("10.0.0.5"), "10.0.0.0/24"),
        CidrListResult::Allow
    );
    assert_eq!(
        addr_match_cidr_list(Some("10.0.1.5"), "10.0.0.0/24"),
        CidrListResult::NoMatch
    );
}

#[test]
fn test_cidr_list_rejects_wildcards() {
    // the strict list never falls back to glob matching
    assert_eq!(
        addr_match_cidr_list(Some("10.0.0.5"), "10.0.0.*"),
        CidrListResult::Invalid
    );
}

#[test]
fn test_cidr_list_rejects_plain_address() {
    assert_eq!(
        addr_match_cidr_list(Some("10.0.0.5"), "10.0.0.5"),
        CidrListResult::Invalid
    );
}

#[test]
fn test_cidr_list_rejects_foreign_characters() {
    assert_eq!(
        addr_match_cidr_list(Some("10.0.0.5"), "10.0.0.0/24 "),
        CidrListResult::Invalid
    );
    assert_eq!(
        addr_match_cidr_list(Some("10.0.0.5"), "10.0.0.0/24,!10.0.0.0/8"),
        CidrListResult::Invalid
    );
}

#[test]
fn test_cidr_list_validates_without_candidate() {
    // the syntax-only probe used when vetting a certificate restriction
    assert_eq!(
        addr_match_cidr_list(None, "10.0.0.0/8,2001:db8::/32"),
        CidrListResult::NoMatch
    );
    assert_eq!(addr_match_cidr_list(None, "10.0.0.0/33"), CidrListResult::Invalid);
    assert_eq!(addr_match_cidr_list(None, ""), CidrListResult::Invalid);
}

#[test]
fn test_cidr_list_later_invalid_entry_rejects_despite_match() {
    assert_eq!(
        addr_match_cidr_list(Some("10.0.0.5"), "10.0.0.0/24,bogus"),
        CidrListResult::Invalid
    );
}

#[test]
fn test_log_rate_limit_ctx_default() {
    let ctx = LogRateLimitCtx::default();
    assert_eq!(ctx.threshold, 0);
    assert_eq!(ctx.accumulated_events, 0);
    assert_eq!(ctx.ratelimit_active, 0);
    assert_eq!(ctx.ratelimited_events, 0);
}

#[test]
fn test_cidr_list_embedded_ipv4_notation() {
    // an IPv4-mapped prefix written with an embedded dotted quad is a
    // valid strict entry
    assert_eq!(
        addr_match_cidr_list(None, "::ffff:10.0.0.0/104"),
        CidrListResult::NoMatch
    );
    assert_eq!(
        addr_match_cidr_list(Some("::ffff:10.0.0.5"), "::ffff:10.0.0.0/104"),
        CidrListResult::Allow
    );
}
