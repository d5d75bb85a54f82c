use nexus_gateway::auth::{constant_time_eq, is_authed};
use nexus_gateway::metrics::{path_pattern, status_class};
use nexus_gateway::proxy::{forwarded_client, upstream_url};
use nexus_gateway::spa::render_spa;
use nexus_gateway::state::HostFramework;
use nexus_gateway::text::parse_u64;

#[test]
fn upstream_url_strips_prefix_and_keeps_query() {
    assert_eq!(
        upstream_url("/remotes/checkout/bundle.js", Some("v=1"), "/remotes/checkout/", "http://checkout:80/"),
        "http://checkout:80/bundle.js?v=1"
    );
    assert_eq!(upstream_url("/host/remoteEntry.json", None, "/host/", "http://shop:80"), "http://shop:80/remoteEntry.json");
    assert_eq!(upstream_url("/", None, "/", "http://shop:80"), "http://shop:80/");
    assert_eq!(upstream_url("/x//y", None, "/", "http://s"), "http://s/x//y");
}

#[test]
fn forwarded_client_takes_last_entry() {
    assert_eq!(forwarded_client("1.2.3.4"), "1.2.3.4");
    assert_eq!(forwarded_client(" 1.2.3.4, 5.6.7.8 "), "5.6.7.8");
    assert_eq!(forwarded_client("a,"), "");
}

#[test]
fn parse_u64_like_std() {
    for s in ["0", "123", "+5", "", "+", "-1", "1a", "18446744073709551615", "18446744073709551616", " 1", "007"] {
        assert_eq!(parse_u64(s), s.parse::<u64>().ok(), "{s:?}");
    }
}

#[test]
fn metrics_labels() {
    assert_eq!(path_pattern("/api/gates"), "/api/*");
    assert_eq!(path_pattern("/remotes/checkout/a.js"), "/remotes/:name/*");
    assert_eq!(path_pattern("/host/x"), "/host/*");
    assert_eq!(path_pattern("/ws"), "/ws");
    assert_eq!(path_pattern("/ws/x"), "other");
    assert_eq!(path_pattern("/assets/a.css"), "/assets/*");
    assert_eq!(path_pattern("/"), "other");
    assert_eq!(status_class(200), "2xx");
    assert_eq!(status_class(304), "3xx");
    assert_eq!(status_class(404), "4xx");
    assert_eq!(status_class(502), "5xx");
    assert_eq!(status_class(101), "5xx");
}

#[test]
fn spa_injects_config_before_head_end() {
    let index = "<html><head><title>x</title></head><body><div id=\"nexus-root\"></div><div id=\"app\"></div><div id=\"root\"></div></body></html>";
    let waiting = "<html><head></head><body>waiting</body></html>";
    let page = render_spa(index, waiting, "/host/remoteEntry.json", "{\"gateName\":\"gate-dk\",\"x\":\"</script>\"}");
    assert!(page.contains("window.__NEXUS_GATEWAY_CONFIG__ = {\"gateName\":\"gate-dk\",\"x\":\"<\\/script>\"};</script>\n</head>"));
    assert!(page.contains("id=\"nexus-root\""));
    assert!(page.contains("id=\"app\""));
    assert!(page.contains("id=\"root\""));
    assert_eq!(page.matches("</head>").count(), 1);
    let page2 = render_spa(index, waiting, "", "{}");
    assert!(page2.contains("waiting"));
    assert!(page2.contains("window.__NEXUS_GATEWAY_CONFIG__ = {};</script>"));
    let start = page.find("__ = ").unwrap() + 5;
    let end = page.find(";</script>").unwrap();
    assert!(!page[start..end].contains("</"));
    let tricky = render_spa(index, waiting, "e", "\"<</</\"");
    let start = tricky.find("__ = ").unwrap() + 5;
    let end = tricky.find(";</script>").unwrap();
    assert_eq!(&tricky[start..end], "\"<<\\/<\\/\"");
    assert!(!tricky[start..end].contains("</"));
    // without </head> the template stays as it is
    assert_eq!(render_spa("<p>", "", "e", "{}"), "<p>");
}

#[test]
fn token_check() {
    assert!(constant_time_eq(b"abc", b"abc"));
    assert!(!constant_time_eq(b"abc", b"abd"));
    assert!(!constant_time_eq(b"abc", b"ab"));
    assert!(is_authed("secret", "secret"));
    assert!(!is_authed("secret", "Secret"));
    assert!(!is_authed("", ""));
}

#[test]
fn framework_names() {
    assert_eq!(HostFramework::Angular.as_str(), "angular");
    assert_eq!(HostFramework::Vue.as_str(), "vue");
    assert_eq!(HostFramework::React.as_str(), "react");
    assert_eq!(HostFramework::default().as_str(), "auto");
}
