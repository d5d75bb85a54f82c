use nexus_gateway::headers::{apply_custom_headers, apply_security_headers, cache_control_value, is_locked, HeaderSet};
use nexus_gateway::proxy::proxied_response_headers;
use nexus_gateway::state::CustomHeader;

fn values(h: &HeaderSet, name: &str) -> Vec<String> {
    h.values(name)
}

fn one(h: &HeaderSet, name: &str) -> String {
    let v = values(h, name);
    assert_eq!(v.len(), 1, "expected exactly one {name} header");
    v[0].clone()
}

#[test]
fn security_headers_present() {
    let mut h = HeaderSet::new();
    apply_security_headers(&mut h);
    assert_eq!(one(&h, "x-frame-options"), "SAMEORIGIN");
    assert_eq!(one(&h, "x-content-type-options"), "nosniff");
    assert_eq!(one(&h, "x-xss-protection"), "1; mode=block");
    assert_eq!(one(&h, "referrer-policy"), "strict-origin-when-cross-origin");
    assert_eq!(one(&h, "permissions-policy"), "camera=(), microphone=(), geolocation=()");
}

#[test]
fn custom_headers_cannot_override_security_headers() {
    let mut h = HeaderSet::new();
    let custom = vec![
        CustomHeader { name: "x-frame-options".into(), value: "ALLOW-FROM evil.com".into() },
        CustomHeader { name: "x-extra".into(), value: "ok".into() },
    ];
    apply_custom_headers(&mut h, &custom);
    // security headers applied after — they always win
    apply_security_headers(&mut h);
    assert_eq!(one(&h, "x-frame-options"), "SAMEORIGIN");
    assert_eq!(one(&h, "x-extra"), "ok");
}

#[test]
fn remote_entry_gets_no_store() {
    assert!(cache_control_value("/host/remoteEntry.json").contains("no-store"));
    assert!(cache_control_value("/remotes/checkout/remoteEntry.js").contains("no-store"));
}

#[test]
fn assets_get_immutable() {
    assert_eq!(
        cache_control_value("/assets/main.abc123.js"),
        "public, max-age=31536000, immutable"
    );
    assert_eq!(
        cache_control_value("/assets/style.min.css"),
        "public, max-age=31536000, immutable"
    );
    assert_eq!(
        cache_control_value("/assets/font.woff2"),
        "public, max-age=31536000, immutable"
    );
}

#[test]
fn other_paths_get_no_cache() {
    assert_eq!(cache_control_value("/"), "no-cache");
    assert_eq!(cache_control_value("/api/gates"), "no-cache");
}

#[test]
fn manifest_suffix_ignores_letter_case() {
    assert_eq!(
        cache_control_value("/host/REMOTEENTRY.JSON"),
        "no-store, no-cache, must-revalidate"
    );
    assert_eq!(
        cache_control_value("/assets/APP.JS"),
        "public, max-age=31536000, immutable"
    );
    // immutable only under /assets/
    assert_eq!(cache_control_value("/static/app.js"), "no-cache");
    // a manifest under /assets/ is still never stored
    assert_eq!(
        cache_control_value("/assets/remoteEntry.js"),
        "no-store, no-cache, must-revalidate"
    );
}

#[test]
fn locked_names_ignore_case() {
    assert!(is_locked("X-Frame-Options"));
    assert!(is_locked("permissions-policy"));
    assert!(!is_locked("x-extra"));
}

#[test]
fn custom_header_names_are_lower_cased() {
    let mut h = HeaderSet::new();
    let custom = vec![CustomHeader { name: "X-Extra".into(), value: "v".into() }];
    apply_custom_headers(&mut h, &custom);
    assert_eq!(h.fields.len(), 1);
    assert_eq!(h.fields[0].name, "x-extra");
    assert_eq!(h.fields[0].value, "v");
}

#[test]
fn invalid_custom_headers_are_skipped() {
    let mut h = HeaderSet::new();
    let custom = vec![
        CustomHeader { name: "bad header".into(), value: "v".into() },
        CustomHeader { name: "x-good".into(), value: "line\nbreak".into() },
        CustomHeader { name: "".into(), value: "v".into() },
        CustomHeader { name: "X-FRAME-OPTIONS".into(), value: "DENY".into() },
        CustomHeader { name: "x-ok".into(), value: "tab\tallowed".into() },
    ];
    apply_custom_headers(&mut h, &custom);
    assert_eq!(h.fields.len(), 1);
    assert_eq!(one(&h, "x-ok"), "tab\tallowed");
}

#[test]
fn custom_header_replaces_same_name() {
    let mut h = HeaderSet::new();
    h.append("x-a", "1");
    h.append("x-a", "2");
    h.append("x-b", "3");
    let custom = vec![CustomHeader { name: "x-a".into(), value: "9".into() }];
    apply_custom_headers(&mut h, &custom);
    assert_eq!(values(&h, "x-a"), vec!["9".to_string()]);
    assert_eq!(values(&h, "x-b"), vec!["3".to_string()]);
}

#[test]
fn proxied_response_keeps_security_headers_last() {
    let mut h = HeaderSet::new();
    h.append("content-type", "application/json");
    h.append("x-frame-options", "ALLOWALL");
    let custom = vec![CustomHeader { name: "x-frame-options".into(), value: "DENY".into() }];
    proxied_response_headers(&mut h, "/remotes/a/remoteEntry.js", &custom);
    assert_eq!(one(&h, "x-frame-options"), "SAMEORIGIN");
    assert_eq!(one(&h, "content-type"), "application/json");
    assert_eq!(one(&h, "cache-control"), "no-store, no-cache, must-revalidate");
    assert_eq!(one(&h, "pragma"), "no-cache");
}

#[test]
fn proxied_asset_gets_no_pragma() {
    let mut h = HeaderSet::new();
    proxied_response_headers(&mut h, "/assets/app.js", &[]);
    assert_eq!(one(&h, "cache-control"), "public, max-age=31536000, immutable");
    assert!(values(&h, "pragma").is_empty());
}
