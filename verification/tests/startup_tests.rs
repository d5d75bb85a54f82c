use nexus_gateway::registry::registry_base;
use nexus_gateway::startup::{
    assemble_state, build_route_table, derive_gate_label, gateway_config_from, is_visible,
    remote_route_prefix, Env, StartupError,
};
use nexus_gateway::state::{
    HostFramework, ProtectionConfig, RegistryGate, RegistryGatewayConfig, RegistryHost, RegistryRemote,
};

fn remote(name: &str, route_path: &str, upstream: &str, visibility: &str) -> RegistryRemote {
    RegistryRemote {
        name: name.into(),
        url: upstream.into(),
        route_path: route_path.into(),
        upstream_url: upstream.into(),
        visibility: visibility.into(),
        enabled: true,
    }
}

fn env(gate_name: &str) -> Env {
    Env {
        nexus_token: "test-token".into(),
        registry_url: "http://registry:3000/".into(),
        gate_name: gate_name.into(),
        host_name: None,
        host_url: None,
        host_framework: None,
        host_remote_entry: None,
        host_exposed_module: None,
        gate_label: None,
    }
}

fn gate(gate_id: &str, host_id: &str) -> RegistryGate {
    RegistryGate {
        id: gate_id.into(),
        name: "gatedK".into(),
        host: Some(RegistryHost {
            id: host_id.into(),
            name: "shopHost".into(),
            url: "http://shop:80".into(),
            framework: HostFramework::Angular,
            remote_entry: "/host/remoteEntry.json".into(),
            exposed_module: "./AppShell".into(),
        }),
    }
}

#[test]
fn visibility_filtering() {
    let global = RegistryRemote {
        name: "a".into(),
        url: "http://a".into(),
        route_path: "a".into(),
        upstream_url: "http://a:80".into(),
        visibility: "global".into(),
        enabled: true,
    };
    let host_match = RegistryRemote {
        visibility: "host:my-host".into(),
        ..global.clone()
    };
    let host_other = RegistryRemote {
        visibility: "host:other-host".into(),
        ..global.clone()
    };

    assert!(is_visible(&global, "my-host"));
    assert!(is_visible(&host_match, "my-host"));
    assert!(!is_visible(&host_other, "my-host"));
}

#[test]
fn derive_gate_label_uses_host_name_when_available() {
    assert_eq!(derive_gate_label(Some("shopHost"), "shop.example.com"), "shopHostGate");
}

#[test]
fn derive_gate_label_strips_dots_and_dashes_when_no_host() {
    assert_eq!(derive_gate_label(None, "angular.local"), "angularlocalGate");
    assert_eq!(derive_gate_label(None, "vue.local"), "vuelocalGate");
    assert_eq!(derive_gate_label(None, "react.local"), "reactlocalGate");
    assert_eq!(derive_gate_label(None, "shop-eu.example.com"), "shopeuexamplecomGate");
    assert_eq!(derive_gate_label(None, "host:8080"), "host8080Gate");
}

#[test]
fn derive_gate_label_handles_label_starting_with_digit() {
    // is_valid_entity_name forbids a leading digit; prefix with 'g'.
    assert_eq!(derive_gate_label(None, "8080.local"), "g8080localGate");
}

#[test]
fn derive_gate_label_never_contains_invalid_chars() {
    let cases = [
        "x_y", "x-y", "x.y", "x:y", "x y", "x/y", "x+y", "1x", "1.2.3.4",
    ];
    for c in cases {
        let label = derive_gate_label(None, c);
        assert!(
            label.chars().all(|ch| ch.is_ascii_alphanumeric()),
            "label \"{label}\" derived from \"{c}\" contains non-alphanumeric chars"
        );
        let first = label.chars().next().expect("non-empty");
        assert!(first.is_ascii_alphabetic(), "label \"{label}\" must start with a letter");
    }
}

#[test]
fn derive_gate_label_of_empty_domain() {
    assert_eq!(derive_gate_label(None, ""), "Gate");
    assert_eq!(derive_gate_label(None, "äö.de"), "deGate");
}

#[test]
fn startup_fetches_gate_and_builds_route_table() {
    let e = env("gate-dk");
    let remotes = vec![
        remote("checkout", "checkout", "http://checkout:80", "global"),
        remote("privateRemote", "private", "http://private:80", "host:host-1"),
        remote("otherHostRemote", "other", "http://other:80", "host:other-host-id"),
    ];
    let reg = RegistryGatewayConfig { protection: None, ..RegistryGatewayConfig::default() };
    let state = assemble_state(&e, gate("gate-1", "host-1"), reg);
    assert_eq!(state.gate_id, "gate-1");
    assert_eq!(state.gate_name, "gate-dk");
    assert_eq!(state.host_id, "host-1");
    assert_eq!(state.host_url, "http://shop:80");
    assert_eq!(state.host_framework, HostFramework::Angular);
    assert_eq!(state.registry_url, "http://registry:3000/");
    assert!(!state.registry_connected);
    assert_eq!(state.gateway_config.protection.max_connections_per_ip, 50);
    assert_eq!(state.gateway_config.protection.ban_threshold_violations, 10);

    let routes = build_route_table(&state, &remotes);
    assert!(routes.resolve("/remotes/checkout/foo").is_some(), "checkout route missing");
    assert!(routes.resolve("/remotes/private/foo").is_some(), "private route missing");
    let (matched_prefix, target) = routes.resolve("/remotes/other/foo").expect("catch-all");
    assert_eq!(matched_prefix, "/");
    assert_eq!(target.upstream_url, "http://shop:80");
    assert!(routes.resolve("/host/remoteEntry.json").is_some());
    assert!(routes.resolve("/").is_some());
    assert!(routes.resolve("/remoteEntry.json").is_some());
    assert_eq!(routes.len(), 4);
}

#[test]
fn remotes_without_upstream_are_routed_at_startup() {
    let e = env("gate-dk");
    let state = assemble_state(&e, gate("g", "h"), RegistryGatewayConfig::default());
    let remotes = vec![remote("x", "/x/", "", "global"), remote("y", "y", "http://y", "host:other")];
    let routes = build_route_table(&state, &remotes);
    assert_eq!(routes.len(), 3);
    let (p, t) = routes.resolve("/remotes/x/a").unwrap();
    assert_eq!(p, "/remotes/x/");
    assert_eq!(t.upstream_url, "");
    assert_eq!(routes.resolve("/remotes/y/a").unwrap().0, "/");
}

#[test]
fn no_catch_all_without_host_url() {
    let e = env("gate-dk");
    let g = RegistryGate { id: "g9".into(), name: "n".into(), host: None };
    let state = assemble_state(&e, g, RegistryGatewayConfig::default());
    let routes = build_route_table(&state, &[remote("c", "c", "http://c", "global")]);
    assert_eq!(routes.len(), 2);
    assert!(routes.resolve("/").is_none());
    assert!(routes.resolve("/index.html").is_none());
    assert_eq!(routes.resolve("/host/remoteEntry.json").unwrap().0, "/host/");
    assert_eq!(routes.resolve("/remotes/c/x").unwrap().1.upstream_url, "http://c");
}

#[test]
fn route_prefix_trims_slashes() {
    assert_eq!(remote_route_prefix("/checkout/"), "/remotes/checkout/");
    assert_eq!(remote_route_prefix("cart"), "/remotes/cart/");
    assert_eq!(remote_route_prefix("//a/b//"), "/remotes/a/b/");
}

#[test]
fn gate_without_host_empties_host_fields() {
    let e = env("gate-dk");
    let g = RegistryGate { id: "g9".into(), name: "n".into(), host: None };
    let p = ProtectionConfig { max_body_bytes: 5, ..ProtectionConfig::default() };
    let reg = RegistryGatewayConfig { protection: Some(p), ..RegistryGatewayConfig::default() };
    let state = assemble_state(&e, g, reg);
    assert_eq!(state.host_id, "");
    assert_eq!(state.host_url, "");
    assert_eq!(state.host_framework, HostFramework::Auto);
    assert_eq!(state.gateway_config.protection.max_body_bytes, 5);
}

#[test]
fn registry_config_keeps_its_fields() {
    let reg = RegistryGatewayConfig {
        cors_origins: vec!["https://a".into()],
        health_check_path: Some("/status".into()),
        ..RegistryGatewayConfig::default()
    };
    let c = gateway_config_from(reg);
    assert_eq!(c.cors_origins, vec!["https://a".to_string()]);
    assert_eq!(c.health_check_path.as_deref(), Some("/status"));
    assert_eq!(c.protection.rate_limit_burst, 200);
}

#[test]
fn host_registration_needs_url() {
    let mut e = env("gate-dk");
    assert!(matches!(e.host_registration(), Ok(None)));
    e.host_name = Some("shop".into());
    assert!(matches!(e.host_registration(), Err(StartupError::MissingHostUrl)));
    e.host_url = Some("http://shop:80".into());
    let h = e.host_registration().unwrap().unwrap();
    assert_eq!(h.name, "shop");
    assert_eq!(h.url, "http://shop:80");
    assert_eq!(h.framework, "angular");
    assert_eq!(h.remote_entry, "/host/remoteEntry.json");
    assert_eq!(h.exposed_module, "./AppShell");
    e.host_framework = Some("vue".into());
    assert_eq!(e.host_registration().unwrap().unwrap().framework, "vue");
}

#[test]
fn gate_label_prefers_configured_then_host_then_domain() {
    let mut e = env("shop-eu.example.com");
    assert_eq!(e.gate_label_to_register(), "shopeuexamplecomGate");
    e.host_name = Some("shopHost".into());
    assert_eq!(e.gate_label_to_register(), "shopHostGate");
    e.gate_label = Some("Custom".into());
    assert_eq!(e.gate_label_to_register(), "Custom");
}

#[test]
fn registry_base_drops_trailing_slashes() {
    assert_eq!(registry_base("http://registry:3000/"), "http://registry:3000");
    assert_eq!(registry_base("http://registry:3000//"), "http://registry:3000");
    assert_eq!(registry_base("http://registry:3000"), "http://registry:3000");
}
