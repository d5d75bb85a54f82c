use nexus_gateway::registry::{
    apply_gate_reassignment, handle_event, is_conflict_failure, is_not_found_failure,
    is_protection_section, registry_events_url, registry_socket_url, resource_url, Backoff, FollowUp,
    HostChange, RegistryEvent, RegistryResource, on_socket_event, SocketAction, SocketEvent,
};
use nexus_gateway::route_table::{RouteTable, UpstreamTarget};
use nexus_gateway::startup::build_route_table;
use nexus_gateway::state::{
    GatewayConfig, GatewayState, HostFramework, ProtectionConfig, RegistryGate, RegistryHost, RegistryRemote,
};

fn state() -> GatewayState {
    GatewayState {
        gate_id: "g1".into(),
        gate_name: "gate-dk".into(),
        host_id: "h1".into(),
        host_name: "shop".into(),
        host_url: "http://shop:80".into(),
        host_framework: HostFramework::Angular,
        host_remote_entry: "/host/remoteEntry.json".into(),
        host_exposed_module: "./AppShell".into(),
        gateway_config: GatewayConfig::default(),
        registry_url: "http://registry:3000".into(),
        nexus_token: "test-token".into(),
        registry_connected: false,
    }
}

fn remote(route_path: &str, upstream: &str, visibility: &str) -> RegistryRemote {
    RegistryRemote {
        name: route_path.into(),
        url: upstream.into(),
        route_path: route_path.into(),
        upstream_url: upstream.into(),
        visibility: visibility.into(),
        enabled: true,
    }
}

fn setup() -> (GatewayState, RouteTable, Backoff) {
    let s = state();
    let routes = build_route_table(&s, &[remote("old", "http://old", "global")]);
    (s, routes, Backoff::initial())
}

#[test]
fn events_url_switches_scheme() {
    assert_eq!(
        registry_events_url("https://reg.example.com/", "tok"),
        "wss://reg.example.com/api/ws?token=tok"
    );
    assert_eq!(registry_events_url("http://reg:3000", "t"), "ws://reg:3000/api/ws?token=t");
}

#[test]
fn socket_url_carries_query() {
    assert_eq!(registry_socket_url("http://reg:3000", Some("a=1")), "ws://reg:3000/ws?a=1");
    assert_eq!(registry_socket_url("https://reg/", None), "wss://reg/ws");
}

#[test]
fn protection_section_name() {
    assert!(is_protection_section("gateway_protection"));
    assert!(!is_protection_section("gateway"));
}

#[test]
fn remotes_changed_replaces_remote_routes() {
    let (mut s, mut routes, mut b) = setup();
    assert!(routes.resolve("/remotes/old/x").unwrap().0 == "/remotes/old/");
    let ev = RegistryEvent::RemotesChanged {
        remotes: vec![
            remote("new", "http://new", "global"),
            remote("hidden", "http://hidden", "host:someone-else"),
        ],
    };
    assert!(matches!(handle_event(&mut s, &mut routes, &mut b, ev), FollowUp::Nothing));
    assert_eq!(routes.resolve("/remotes/old/x").unwrap().0, "/");
    assert_eq!(routes.resolve("/remotes/new/x").unwrap().1.upstream_url, "http://new");
    assert_eq!(routes.resolve("/remotes/hidden/x").unwrap().0, "/");
    assert_eq!(routes.len(), 3);
    // the host routes stay as they were
    let (p, t) = routes.resolve("/host/x").unwrap();
    assert_eq!(p, "/host/");
    assert_eq!(t.upstream_url, "http://shop:80");
    let (p, t) = routes.resolve("/index.html").unwrap();
    assert_eq!(p, "/");
    assert_eq!(t.upstream_url, "http://shop:80");
}

#[test]
fn host_changed_moves_host_routes() {
    let (mut s, mut routes, mut b) = setup();
    let ev = RegistryEvent::HostChanged {
        host: HostChange {
            id: "h1".into(),
            url: Some("http://new-host:80".into()),
            framework: Some(HostFramework::Vue),
            remote_entry: None,
            exposed_module: None,
        },
    };
    assert!(matches!(handle_event(&mut s, &mut routes, &mut b, ev), FollowUp::Nothing));
    assert_eq!(s.host_url, "http://new-host:80");
    assert_eq!(s.host_framework, HostFramework::Vue);
    assert_eq!(s.host_remote_entry, "/host/remoteEntry.json");
    assert_eq!(routes.resolve("/host/remoteEntry.json").unwrap().1.upstream_url, "http://new-host:80");
    assert_eq!(routes.resolve("/main.js").unwrap().1.upstream_url, "http://new-host:80");
}

#[test]
fn host_changed_for_other_host_is_ignored() {
    let (mut s, mut routes, mut b) = setup();
    let ev = RegistryEvent::HostChanged {
        host: HostChange {
            id: "other".into(),
            url: Some("http://x".into()),
            framework: None,
            remote_entry: None,
            exposed_module: None,
        },
    };
    handle_event(&mut s, &mut routes, &mut b, ev);
    assert_eq!(s.host_url, "http://shop:80");
    assert_eq!(routes.resolve("/host/a").unwrap().1.upstream_url, "http://shop:80");
}

#[test]
fn gate_changed_asks_for_refetch_of_own_gate_only() {
    let (mut s, mut routes, mut b) = setup();
    match handle_event(&mut s, &mut routes, &mut b, RegistryEvent::GateChanged { gate_id: "g1".into() }) {
        FollowUp::RefetchGate { gate_id } => assert_eq!(gate_id, "g1"),
        FollowUp::Nothing => panic!("expected a refetch"),
    }
    assert!(matches!(
        handle_event(&mut s, &mut routes, &mut b, RegistryEvent::GateChanged { gate_id: "g2".into() }),
        FollowUp::Nothing
    ));
}

#[test]
fn hot_reload_protection_config() {
    let (mut s, mut routes, mut b) = setup();
    let p = ProtectionConfig { rate_limit_requests_per_second: 999, ..ProtectionConfig::default() };
    handle_event(
        &mut s,
        &mut routes,
        &mut b,
        RegistryEvent::ConfigChanged { section: "gateway_protection".into(), protection: Some(p.clone()) },
    );
    assert_eq!(s.gateway_config.protection.rate_limit_requests_per_second, 999);
    let q = ProtectionConfig { rate_limit_requests_per_second: 1, ..ProtectionConfig::default() };
    handle_event(
        &mut s,
        &mut routes,
        &mut b,
        RegistryEvent::ConfigChanged { section: "other".into(), protection: Some(q) },
    );
    assert_eq!(s.gateway_config.protection.rate_limit_requests_per_second, 999);
}

#[test]
fn reconnect_policy_replaces_backoff() {
    let (mut s, mut routes, mut b) = setup();
    handle_event(
        &mut s,
        &mut routes,
        &mut b,
        RegistryEvent::ReconnectPolicyChanged { initial_delay_ms: 200, max_delay_ms: 1000 },
    );
    assert_eq!(b.sleep_ns(0), 200_000_000);
    b.advance_capped();
    b.advance_capped();
    b.advance_capped();
    assert_eq!(b.sleep_ns(7), 1_000_000_000 + 7_000_000);
}

#[test]
fn unknown_event_changes_nothing() {
    let (mut s, mut routes, mut b) = setup();
    assert!(matches!(handle_event(&mut s, &mut routes, &mut b, RegistryEvent::Unknown), FollowUp::Nothing));
    assert_eq!(routes.len(), 3);
    assert_eq!(s.gate_id, "g1");
}

#[test]
fn gate_reassignment_rebuilds_routes() {
    let (mut s, mut routes, _) = setup();
    let g = RegistryGate {
        id: "g2".into(),
        name: "n".into(),
        host: Some(RegistryHost {
            id: "h2".into(),
            name: "other".into(),
            url: "http://h2:80".into(),
            framework: HostFramework::React,
            remote_entry: "/host/remoteEntry.js".into(),
            exposed_module: "./Shell".into(),
        }),
    };
    apply_gate_reassignment(&mut s, &mut routes, g, &[remote("mine", "http://mine", "host:h2")]);
    assert_eq!(s.gate_id, "g2");
    assert_eq!(s.host_id, "h2");
    assert_eq!(s.host_framework, HostFramework::React);
    assert_eq!(s.gate_name, "gate-dk");
    assert_eq!(routes.resolve("/remotes/old/x").unwrap().1.upstream_url, "http://h2:80");
    assert_eq!(routes.resolve("/remotes/mine/x").unwrap().1.upstream_url, "http://mine");
    assert_eq!(routes.len(), 3);
}

#[test]
fn backoff_doubles_up_to_cap() {
    let mut b = Backoff::initial();
    assert_eq!(b.sleep_ns(0), 1_000_000_000);
    for _ in 0..10 {
        b.advance_capped();
    }
    assert_eq!(b.sleep_ns(500), 30_000_000_000 + 500_000_000);
}

#[test]
fn backoff_doubling_without_cap() {
    let mut b = Backoff::from_policy(1000, 5000);
    b.advance_doubling();
    b.advance_doubling();
    b.advance_doubling();
    // the cap bounds the pause, not the stored delay
    assert_eq!(b.sleep_ns(0), 5_000_000_000);
}

#[test]
fn jittered_pause_stays_in_range() {
    let b = Backoff::initial();
    for _ in 0..50 {
        let ns = b.next_sleep_ns();
        assert!(ns >= 1_000_000_000 && ns <= 1_500_000_000, "{ns}");
    }
}

#[test]
fn route_table_helper_target() {
    let t = UpstreamTarget { upstream_url: "u".into(), enabled: true };
    let c = t.copy();
    assert_eq!(c.upstream_url, "u");
    assert!(c.enabled);
}

#[test]
fn resource_urls() {
    let base = "http://registry:3000/";
    assert_eq!(
        resource_url(base, &RegistryResource::GateByDomain { domain: "gate-dk".into() }),
        "http://registry:3000/api/gates/by-domain/gate-dk"
    );
    assert_eq!(resource_url(base, &RegistryResource::Gate { id: "g1".into() }), "http://registry:3000/api/gates/g1");
    assert_eq!(resource_url(base, &RegistryResource::Gates), "http://registry:3000/api/gates");
    assert_eq!(resource_url(base, &RegistryResource::Host { name: "shop".into() }), "http://registry:3000/api/hosts/shop");
    assert_eq!(resource_url(base, &RegistryResource::Hosts), "http://registry:3000/api/hosts");
    assert_eq!(
        resource_url(base, &RegistryResource::HostRemotes { host_id: "host-1".into() }),
        "http://registry:3000/api/hosts/host-1/remotes"
    );
    assert_eq!(resource_url("http://r", &RegistryResource::GatewayConfig), "http://r/api/config/gateway");
}

#[test]
fn failure_classification() {
    assert!(is_not_found_failure("registry returned 404 Not Found for http://r/api/gates/by-domain/x: {}"));
    assert!(!is_not_found_failure("request to http://r failed"));
    assert!(is_conflict_failure("registry returned 409 Conflict for x: {\"error\":\"conflict\"}"));
    assert!(!is_conflict_failure("registry returned 409 Conflict for x: {}"));
}

#[test]
fn retry_gives_up_after_budget() {
    let mut b = Backoff::initial();
    let p = b.retry_pause(0, 60).unwrap();
    assert!(p >= 1_000_000_000 && p <= 1_500_000_000);
    let p = b.retry_pause(10, 60).unwrap();
    assert!(p >= 2_000_000_000 && p <= 2_500_000_000);
    assert!(b.retry_pause(60, 60).is_none());
    // the delays were left as they were
    let p = b.retry_pause(0, 60).unwrap();
    assert!(p >= 4_000_000_000 && p <= 4_500_000_000);
}

#[test]
fn host_changed_to_empty_url_drops_catch_all() {
    let (mut s, mut routes, mut b) = setup();
    let ev = RegistryEvent::HostChanged {
        host: HostChange { id: "h1".into(), url: Some("".into()), framework: None, remote_entry: None, exposed_module: None },
    };
    handle_event(&mut s, &mut routes, &mut b, ev);
    assert!(routes.resolve("/main.js").is_none());
    assert_eq!(routes.resolve("/host/x").unwrap().1.upstream_url, "");
}

#[test]
fn remotes_changed_skips_remotes_without_upstream() {
    let (mut s, mut routes, mut b) = setup();
    let ev = RegistryEvent::RemotesChanged { remotes: vec![remote("blank", "", "global")] };
    handle_event(&mut s, &mut routes, &mut b, ev);
    assert_eq!(routes.resolve("/remotes/blank/x").unwrap().0, "/");
    assert_eq!(routes.len(), 2);
}

#[test]
fn gate_reassignment_skips_remotes_without_upstream() {
    let (mut s, mut routes, _) = setup();
    let g = RegistryGate { id: "g3".into(), name: "n".into(), host: None };
    apply_gate_reassignment(&mut s, &mut routes, g, &[remote("blank", "", "global"), remote("a", "http://a", "global")]);
    assert_eq!(routes.len(), 2);
    assert!(routes.resolve("/remotes/blank/x").is_none());
    assert_eq!(routes.resolve("/remotes/a/x").unwrap().1.upstream_url, "http://a");
    assert!(routes.resolve("/other").is_none());
}

#[test]
fn socket_events_drive_connection_flag_and_pauses() {
    let mut s = state();
    let mut b = Backoff::initial();
    match on_socket_event(&mut s, &mut b, SocketEvent::Connected) {
        SocketAction::Subscribe { gate_name } => assert_eq!(gate_name, "gate-dk"),
        SocketAction::Reconnect { .. } => panic!("expected a subscription"),
    }
    assert!(s.registry_connected);
    match on_socket_event(&mut s, &mut b, SocketEvent::Disconnected) {
        SocketAction::Reconnect { pause_ns } => assert!(pause_ns >= 1_000_000_000 && pause_ns <= 1_500_000_000),
        SocketAction::Subscribe { .. } => panic!("expected a pause"),
    }
    assert!(!s.registry_connected);
    match on_socket_event(&mut s, &mut b, SocketEvent::ConnectFailed) {
        SocketAction::Reconnect { pause_ns } => assert!(pause_ns >= 2_000_000_000 && pause_ns <= 2_500_000_000),
        SocketAction::Subscribe { .. } => panic!("expected a pause"),
    }
    assert!(!s.registry_connected);
    for _ in 0..10 {
        on_socket_event(&mut s, &mut b, SocketEvent::ConnectFailed);
    }
    assert_eq!(b.sleep_ns(0), 30_000_000_000);
}
