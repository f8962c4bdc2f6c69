use ghostlink::number::parse_u32;
use ghostlink::rpc_access::{
    admission_is_valid, auth_port, compute_hmac, connection_allowed, contributor_plan, handshake_matches, ip_allowed,
    ipv4_entry_matches, parse_ipv4,
    AdmissionRegistry, IpAddress, RPC_ADMISSION_TTL_MS, RPC_MAC_LEN, RPC_NONCE_LEN,
};

fn v4(a: u8, b: u8, c: u8, d: u8) -> IpAddress {
    IpAddress::V4(u32::from_be_bytes([a, b, c, d]))
}

#[test]
fn ip_allowed_empty_allowlist_allows_everything() {
    assert!(ip_allowed(&v4(10, 0, 0, 29), &[]));
    assert!(ip_allowed(&v4(203, 0, 113, 5), &[]));
}

#[test]
fn ip_allowed_exact_ipv4_match() {
    let allowlist = vec!["10.0.0.29".to_string()];
    assert!(ip_allowed(&v4(10, 0, 0, 29), &allowlist));
    assert!(!ip_allowed(&v4(10, 0, 0, 30), &allowlist));
}

#[test]
fn ip_allowed_cidr_range_match() {
    let allowlist = vec!["10.0.0.0/24".to_string()];
    assert!(ip_allowed(&v4(10, 0, 0, 1), &allowlist));
    assert!(ip_allowed(&v4(10, 0, 0, 254), &allowlist));
    assert!(!ip_allowed(&v4(10, 0, 1, 1), &allowlist));
    assert!(!ip_allowed(&v4(11, 0, 0, 1), &allowlist));
}

#[test]
fn ip_allowed_cidr_slash_32_is_exact_match() {
    let allowlist = vec!["192.168.1.5/32".to_string()];
    assert!(ip_allowed(&v4(192, 168, 1, 5), &allowlist));
    assert!(!ip_allowed(&v4(192, 168, 1, 6), &allowlist));
}

#[test]
fn ip_allowed_cidr_slash_0_matches_everything() {
    let allowlist = vec!["0.0.0.0/0".to_string()];
    assert!(ip_allowed(&v4(1, 2, 3, 4), &allowlist));
    assert!(ip_allowed(&v4(255, 255, 255, 255), &allowlist));
}

#[test]
fn ip_allowed_multiple_entries_any_match_wins() {
    let allowlist = vec!["10.0.0.29".to_string(), "192.168.0.0/16".to_string()];
    assert!(ip_allowed(&v4(10, 0, 0, 29), &allowlist));
    assert!(ip_allowed(&v4(192, 168, 50, 7), &allowlist));
    assert!(!ip_allowed(&v4(172, 16, 0, 1), &allowlist));
}

#[test]
fn ip_allowed_ipv6_input_rejected_not_panicking() {
    let allowlist = vec!["10.0.0.0/24".to_string()];
    let ipv6 = IpAddress::V6(1);
    assert!(!ip_allowed(&ipv6, &allowlist));
}

#[test]
fn ip_allowed_malformed_entry_is_skipped_not_panicking() {
    let allowlist = vec![
        "not-an-ip".to_string(),
        "10.0.0.0/99".to_string(),
        "10.0.0.29".to_string(),
    ];
    assert!(ip_allowed(&v4(10, 0, 0, 29), &allowlist));
    assert!(!ip_allowed(&v4(10, 0, 0, 30), &allowlist));
}

#[test]
fn connection_allowed_requires_both_ip_allowlist_and_admission_when_required() {
    assert!(connection_allowed(true, false, false), "allowlisted, no admission required at all");
    assert!(!connection_allowed(true, true, false), "allowlisted but admission required and not yet granted");
    assert!(connection_allowed(true, true, true), "allowlisted, admission required and granted");
    assert!(!connection_allowed(false, false, false), "not on the allowlist at all, regardless of admission");
    assert!(!connection_allowed(false, true, true), "admitted but not on the allowlist");
}

#[test]
fn admission_is_valid_true_before_expiry_false_at_and_after() {
    let base: u64 = 1_000;
    let expiry = base + 50;
    assert!(admission_is_valid(expiry, base));
    assert!(!admission_is_valid(expiry, expiry));
    assert!(!admission_is_valid(expiry, expiry + 1));
}

#[test]
fn admit_peer_then_is_admitted_round_trips_for_a_fresh_ip() {
    let mut registry = AdmissionRegistry::new();
    let ip = v4(198, 51, 100, 77);
    assert!(!registry.is_admitted(ip, 5_000), "must not be admitted before a grant");
    registry.grant(ip, 5_000);
    assert!(registry.is_admitted(ip, 5_000), "must be admitted immediately after a grant");
}

#[test]
fn is_admitted_false_for_an_ip_that_was_never_admitted() {
    let mut registry = AdmissionRegistry::new();
    registry.grant(v4(198, 51, 100, 77), 0);
    assert!(!registry.is_admitted(v4(198, 51, 100, 78), 0));
}

#[test]
fn admission_lapses_after_ttl_and_is_pruned() {
    let mut registry = AdmissionRegistry::new();
    let ip = v4(10, 1, 2, 3);
    registry.grant(ip, 100);
    assert!(registry.is_admitted(ip, 100 + RPC_ADMISSION_TTL_MS - 1));
    assert!(!registry.is_admitted(ip, 100 + RPC_ADMISSION_TTL_MS));
    // Pruned: even an earlier clock reading no longer finds the grant.
    assert!(!registry.is_admitted(ip, 100));
}

#[test]
fn regrant_extends_admission() {
    let mut registry = AdmissionRegistry::new();
    let ip = v4(10, 1, 2, 3);
    registry.grant(ip, 0);
    registry.grant(ip, 20_000);
    assert!(registry.is_admitted(ip, 40_000));
    assert!(!registry.is_admitted(ip, 50_000));
}

#[test]
fn compute_hmac_is_deterministic_and_distinguishes_secret_and_nonce() {
    let nonce: [u8; RPC_NONCE_LEN] = rand::random();
    let a = compute_hmac("secret-a", &nonce);
    let b = compute_hmac("secret-a", &nonce);
    let c = compute_hmac("secret-b", &nonce);
    let mut other_nonce: [u8; RPC_NONCE_LEN] = rand::random();
    if other_nonce == nonce {
        other_nonce[0] ^= 1;
    }
    let d = compute_hmac("secret-a", &other_nonce);
    assert_eq!(a, b, "same secret + nonce must produce the same MAC");
    assert_ne!(a, c, "different secret must change the MAC");
    assert_ne!(a, d, "different nonce must change the MAC");
    assert_eq!(a.len(), RPC_MAC_LEN);
}

#[test]
fn compute_hmac_matches_rfc4231_case_2() {
    // RFC 4231 test case 2: key "Jefe", data "what do ya want for nothing?".
    let mac = compute_hmac("Jefe", b"what do ya want for nothing?");
    let expected: [u8; 32] = [
        0x5b, 0xdc, 0xc1, 0x46, 0xbf, 0x60, 0x75, 0x4e, 0x6a, 0x04, 0x24, 0x26, 0x08, 0x95, 0x75, 0xc7, 0x5a, 0x00, 0x3f,
        0x08, 0x9d, 0x27, 0x39, 0x83, 0x9d, 0xec, 0x58, 0xb9, 0x64, 0xec, 0x38, 0x43,
    ];
    assert_eq!(mac, expected.to_vec());
}

#[test]
fn parse_u32_follows_from_str() {
    assert_eq!(parse_u32("24"), Some(24));
    assert_eq!(parse_u32("+7"), Some(7));
    assert_eq!(parse_u32("007"), Some(7));
    assert_eq!(parse_u32("4294967295"), Some(u32::MAX));
    assert_eq!(parse_u32("4294967296"), None);
    assert_eq!(parse_u32(""), None);
    assert_eq!(parse_u32("+"), None);
    assert_eq!(parse_u32("-1"), None);
    assert_eq!(parse_u32("1a"), None);
}

#[test]
fn parse_ipv4_follows_dotted_quad_rules() {
    assert_eq!(parse_ipv4("10.0.0.29"), Some(0x0a00_001d));
    assert_eq!(parse_ipv4("255.255.255.255"), Some(u32::MAX));
    assert_eq!(parse_ipv4("0.0.0.0"), Some(0));
    assert_eq!(parse_ipv4("256.0.0.1"), None);
    assert_eq!(parse_ipv4("10.0.0"), None);
    assert_eq!(parse_ipv4("10.0.0.1.2"), None);
    assert_eq!(parse_ipv4("010.0.0.1"), None);
    assert_eq!(parse_ipv4("10..0.1"), None);
    assert_eq!(parse_ipv4(" 10.0.0.1"), None);
}

#[test]
fn entry_matching_trims_white_space() {
    assert!(ipv4_entry_matches("  10.0.0.0/8 ", 0x0a01_0203));
    assert!(!ipv4_entry_matches("10.0.0.0/8/1", 0x0a01_0203));
}

#[test]
fn handshake_response_must_be_the_mac() {
    let nonce = [7u8; 16];
    let mac = compute_hmac("secret", &nonce);
    assert!(handshake_matches("secret", &nonce, &mac));
    let mut wrong = mac.clone();
    wrong[0] ^= 1;
    assert!(!handshake_matches("secret", &nonce, &wrong));
    assert!(!handshake_matches("other", &nonce, &mac));
    assert!(!handshake_matches("secret", &nonce, &mac[..31]));
}

#[test]
fn auth_port_saturates() {
    assert_eq!(auth_port(50052), 52052);
    assert_eq!(auth_port(64000), u16::MAX);
}

#[test]
fn contributor_plan_binds_loopback_behind_a_proxy_when_restricted() {
    let open = contributor_plan("0.0.0.0", 50052, &[], "");
    assert!(!open.use_proxy);
    assert_eq!(open.spawn_host, "0.0.0.0");
    assert_eq!(open.spawn_port, 50052);

    let allow = contributor_plan("0.0.0.0", 50052, &["10.0.0.0/24".to_string()], "");
    assert!(allow.use_proxy);
    assert_eq!(allow.spawn_host, "127.0.0.1");
    assert_eq!(allow.spawn_port, 51052);

    let secret = contributor_plan("0.0.0.0", 65000, &[], "s3cret");
    assert!(secret.use_proxy);
    assert_eq!(secret.spawn_port, u16::MAX);
}
