use nexus_gateway::ip::{ip_class, IpAddress};
use nexus_gateway::protection::{body_over_limit, Admission, BanEntry, ProtectionState, RequestEnd, TOP_OFFENDERS};
use nexus_gateway::state::ProtectionConfig;

const SECOND: u128 = 1_000_000_000;
const NOW: u128 = 1_000_000 * SECOND;

fn default_cfg() -> ProtectionConfig {
    ProtectionConfig::default()
}

fn ip(a: u8, b: u8, c: u8, d: u8) -> IpAddress {
    IpAddress::V4(u32::from_be_bytes([a, b, c, d]))
}

// ---- Connection limit ----

#[test]
fn connection_limit_blocks_when_exceeded() {
    let mut prot = ProtectionState::new();
    let cfg = ProtectionConfig {
        max_connections_per_ip: 2,
        ..default_cfg()
    };
    let addr = ip(10, 0, 0, 1);

    // Acquire two slots
    assert!(matches!(prot.screen_request(addr, 0, None, &cfg, NOW), Admission::Admitted));
    assert!(matches!(prot.screen_request(addr, 0, None, &cfg, NOW), Admission::Admitted));

    // Third attempt should be over limit
    let third = prot.screen_request(addr, 0, None, &cfg, NOW);
    assert!(
        matches!(third, Admission::TooManyConnections { limit: 2, newly_banned: false }),
        "expected connection limit to be exceeded"
    );
    assert_eq!(prot.connection_count(addr).active_http, 2);
    assert_eq!(prot.requests_blocked(), 1);
    assert_eq!(prot.violation_count(addr), 1);
}

// ---- Ban management ----

#[test]
fn auto_ban_after_threshold_violations() {
    let mut prot = ProtectionState::new();
    let cfg = ProtectionConfig {
        ban_threshold_violations: 3,
        ban_duration_seconds: 60,
        ..default_cfg()
    };
    let addr = ip(10, 0, 0, 5);

    for _ in 0..3 {
        prot.record_violation(addr, "test_violation", &cfg, NOW);
    }

    assert!(
        prot.check_ban(addr, NOW).is_err(),
        "IP should be banned after threshold"
    );
    let (retry_secs, reason) = prot.check_ban(addr, NOW).unwrap_err();
    assert!(retry_secs > 0);
    assert_eq!(reason, "test_violation");
}

#[test]
fn unban_clears_ban() {
    let mut prot = ProtectionState::new();
    let addr = ip(10, 0, 0, 6);

    prot.insert_ban(
        addr,
        BanEntry {
            banned_until: NOW + 300 * SECOND,
            reason: "test".into(),
            violation_count: 1,
        },
    );

    assert!(prot.check_ban(addr, NOW).is_err(), "should be banned");
    assert!(prot.unban(addr), "unban should return true");
    assert!(
        prot.check_ban(addr, NOW).is_ok(),
        "should not be banned after unban"
    );
}

#[test]
fn expired_ban_is_removed_on_check() {
    let mut prot = ProtectionState::new();
    let addr = ip(10, 0, 0, 7);

    prot.insert_ban(
        addr,
        BanEntry {
            banned_until: NOW - SECOND, // expired
            reason: "old ban".into(),
            violation_count: 1,
        },
    );

    assert!(prot.check_ban(addr, NOW).is_ok(), "expired ban should not block");
    assert!(!prot.has_ban(addr), "expired ban should be removed");
}

// ---- WebSocket limits ----

#[test]
fn ws_connection_limit_blocks_when_exceeded() {
    let mut prot = ProtectionState::new();
    let addr = ip(10, 0, 0, 8);
    let limit = 2;

    assert!(prot.try_acquire_ws(addr, limit));
    assert!(prot.try_acquire_ws(addr, limit));
    assert!(
        !prot.try_acquire_ws(addr, limit),
        "third WS connection should be rejected"
    );
}

#[test]
fn ws_release_allows_new_connection() {
    let mut prot = ProtectionState::new();
    let addr = ip(10, 0, 0, 9);

    assert!(prot.try_acquire_ws(addr, 1));
    assert!(!prot.try_acquire_ws(addr, 1), "second should be rejected");
    prot.release_ws(addr);
    assert!(prot.try_acquire_ws(addr, 1), "should succeed after release");
}

// ---- More of the same state machine ----

#[test]
fn below_threshold_does_not_ban() {
    let mut prot = ProtectionState::new();
    let cfg = ProtectionConfig { ban_threshold_violations: 3, ..default_cfg() };
    let addr = ip(10, 1, 0, 1);
    assert!(!prot.record_violation(addr, "x", &cfg, NOW));
    assert!(!prot.record_violation(addr, "x", &cfg, NOW));
    assert!(!prot.has_ban(addr));
    assert_eq!(prot.violation_count(addr), 2);
    assert!(prot.record_violation(addr, "x", &cfg, NOW));
    assert!(prot.has_ban(addr));
    assert_eq!(prot.ban_remaining_secs(addr, NOW), Some(cfg.ban_duration_seconds));
}

#[test]
fn ban_seconds_left_round_down() {
    let mut prot = ProtectionState::new();
    let addr = ip(10, 1, 0, 2);
    prot.insert_ban(addr, BanEntry { banned_until: NOW + 90 * SECOND + 500, reason: "r".into(), violation_count: 4 });
    assert_eq!(prot.ban_remaining_secs(addr, NOW), Some(90));
    assert_eq!(prot.check_ban(addr, NOW), Err((90, "r".to_string())));
    // a ban ends at its instant exactly
    assert_eq!(prot.ban_remaining_secs(addr, NOW + 90 * SECOND + 500), None);
}

#[test]
fn screen_request_turns_banned_client_away() {
    let mut prot = ProtectionState::new();
    let cfg = default_cfg();
    let addr = ip(10, 1, 0, 3);
    let secs = prot.ban_manual(addr, Some(120), cfg.ban_duration_seconds, NOW);
    assert_eq!(secs, 120);
    match prot.screen_request(addr, 0, None, &cfg, NOW) {
        Admission::Banned { retry_after_secs, reason } => {
            assert_eq!(retry_after_secs, 120);
            assert_eq!(reason, "manual ban");
        }
        other => panic!("unexpected {other:?}"),
    }
    assert_eq!(prot.requests_blocked(), 1);
    assert_eq!(prot.connection_count(addr).active_http, 0);
    assert_eq!(prot.violation_count(addr), 0);
}

#[test]
fn manual_ban_uses_configured_duration_by_default() {
    let mut prot = ProtectionState::new();
    let addr = ip(10, 1, 0, 4);
    assert_eq!(prot.ban_manual(addr, None, 300, NOW), 300);
    assert_eq!(prot.ban_remaining_secs(addr, NOW), Some(300));
}

#[test]
fn screen_request_checks_headers_then_body() {
    let mut prot = ProtectionState::new();
    let cfg = ProtectionConfig { max_header_bytes: 100, max_body_bytes: 1000, ..default_cfg() };
    let addr = ip(10, 1, 0, 5);
    assert!(matches!(
        prot.screen_request(addr, 101, Some(5000), &cfg, NOW),
        Admission::HeadersTooLarge { newly_banned: false }
    ));
    assert!(matches!(
        prot.screen_request(addr, 100, Some(1001), &cfg, NOW),
        Admission::PayloadTooLarge { max_bytes: 1000, newly_banned: false }
    ));
    assert!(matches!(prot.screen_request(addr, 100, Some(1000), &cfg, NOW), Admission::Admitted));
    assert_eq!(prot.violation_count(addr), 2);
    assert_eq!(prot.requests_blocked(), 2);
}

#[test]
fn http_release_gives_slot_back() {
    let mut prot = ProtectionState::new();
    let cfg = default_cfg();
    let addr = ip(10, 1, 0, 6);
    assert!(matches!(prot.screen_request(addr, 0, None, &cfg, NOW), Admission::Admitted));
    assert_eq!(prot.connection_count(addr).active_http, 1);
    prot.release_http(addr);
    assert_eq!(prot.connection_count(addr).active_http, 0);
}

#[test]
fn rate_limited_rejection_releases_and_counts() {
    let mut prot = ProtectionState::new();
    let cfg = default_cfg();
    let addr = ip(10, 1, 0, 7);
    assert!(matches!(prot.screen_request(addr, 0, None, &cfg, NOW), Admission::Admitted));
    prot.reject_rate_limited(addr);
    assert_eq!(prot.connection_count(addr).active_http, 0);
    assert_eq!(prot.requests_blocked(), 1);
}

#[test]
fn timeout_is_a_violation_and_blocked() {
    let mut prot = ProtectionState::new();
    let cfg = ProtectionConfig { ban_threshold_violations: 1, ban_duration_seconds: 10, ..default_cfg() };
    let addr = ip(10, 1, 0, 8);
    assert!(prot.record_timeout(addr, &cfg, NOW));
    assert_eq!(prot.requests_blocked(), 1);
    assert_eq!(prot.check_ban(addr, NOW), Err((10, "request_timeout".to_string())));
}

#[test]
fn clear_bans_lifts_all() {
    let mut prot = ProtectionState::new();
    prot.ban_manual(ip(1, 1, 1, 1), Some(10), 10, NOW);
    prot.ban_manual(ip(2, 2, 2, 2), Some(10), 10, NOW);
    assert_eq!(prot.ban_count(), 2);
    prot.clear_bans();
    assert_eq!(prot.ban_count(), 0);
    assert!(prot.check_ban(ip(1, 1, 1, 1), NOW).is_ok());
}

#[test]
fn active_bans_lists_only_unexpired() {
    let mut prot = ProtectionState::new();
    prot.insert_ban(ip(1, 0, 0, 1), BanEntry { banned_until: NOW + 30 * SECOND, reason: "a".into(), violation_count: 2 });
    prot.insert_ban(ip(1, 0, 0, 2), BanEntry { banned_until: NOW, reason: "b".into(), violation_count: 3 });
    let bans = prot.active_bans(NOW);
    assert_eq!(bans.len(), 1);
    assert_eq!(bans[0].ip, ip(1, 0, 0, 1));
    assert_eq!(bans[0].remaining_seconds, 30);
    assert_eq!(bans[0].reason, "a");
    assert_eq!(bans[0].violation_count, 2);
}

#[test]
fn top_offenders_sorted_and_capped() {
    let mut prot = ProtectionState::new();
    let cfg = ProtectionConfig { ban_threshold_violations: 1000, ..default_cfg() };
    for i in 0..12u8 {
        for _ in 0..(i as u32 + 1) {
            prot.record_violation(ip(9, 0, 0, i), "v", &cfg, NOW);
        }
    }
    let top = prot.top_offenders(NOW);
    assert_eq!(top.len(), TOP_OFFENDERS);
    assert_eq!(top[0].ip, ip(9, 0, 0, 11));
    assert_eq!(top[0].violation_count, 12);
    for w in top.windows(2) {
        assert!(w[0].violation_count >= w[1].violation_count);
    }
    assert_eq!(top[9].violation_count, 3);
    assert!(!top[0].is_banned);
}

#[test]
fn body_limit_applies_to_methods_with_bodies() {
    assert!(body_over_limit("POST", 11, 10));
    assert!(body_over_limit("PUT", 11, 10));
    assert!(body_over_limit("PATCH", 11, 10));
    assert!(!body_over_limit("POST", 10, 10));
    assert!(!body_over_limit("GET", 11, 10));
}

#[test]
fn ip_class_keeps_coarse_prefix() {
    assert_eq!(ip_class(&ip(10, 20, 30, 40)), "10.20");
    assert_eq!(ip_class(&ip(0, 0, 1, 2)), "0.0");
    assert_eq!(ip_class(&IpAddress::V6(0x2001_0db8_0000_0000_0000_0000_0000_0001)), "2001");
    assert_eq!(ip_class(&IpAddress::V6(0xfe80_0000_0000_0000_0000_0000_0000_0001)), "fe80");
    assert_eq!(ip_class(&IpAddress::V6(1)), "0");
}

#[test]
fn default_state_is_empty() {
    let p = ProtectionState::default();
    assert_eq!(p.ban_count(), 0);
    assert_eq!(p.requests_blocked(), 0);
    assert!(p.top_offenders(NOW).is_empty());
    assert!(p.active_bans(NOW).is_empty());
}

#[test]
fn every_admitted_request_gives_its_slot_back() {
    let cfg = ProtectionConfig { ban_threshold_violations: 1, ban_duration_seconds: 5, ..default_cfg() };
    for end in [RequestEnd::Answered, RequestEnd::RateLimited, RequestEnd::TimedOut] {
        let mut prot = ProtectionState::new();
        let addr = ip(10, 2, 0, 1);
        assert!(matches!(prot.screen_request(addr, 0, None, &cfg, NOW), Admission::Admitted));
        assert_eq!(prot.connection_count(addr).active_http, 1);
        let banned = prot.finish_request(addr, end, &cfg, NOW);
        assert_eq!(prot.connection_count(addr).active_http, 0);
        match end {
            RequestEnd::Answered => {
                assert!(!banned);
                assert_eq!(prot.requests_blocked(), 0);
            }
            RequestEnd::RateLimited => {
                assert!(!banned);
                assert_eq!(prot.requests_blocked(), 1);
            }
            RequestEnd::TimedOut => {
                assert!(banned);
                assert_eq!(prot.requests_blocked(), 1);
                assert_eq!(prot.check_ban(addr, NOW), Err((5, "request_timeout".to_string())));
            }
        }
    }
}
