//! Gateway state and configuration, and the shapes the registry answers with.
use vstd::prelude::*;
use vstd::string::*;

verus! {

/// The front-end framework of the host shell.
#[derive(Clone, Copy, Debug, PartialEq, Eq, Structural)]
pub enum HostFramework {
    Auto,
    Angular,
    Vue,
    React,
}

/// The lower-case name of a framework, as shown to clients.
pub open spec fn framework_name(f: HostFramework) -> Seq<char> {
    match f {
        HostFramework::Auto => "auto"@,
        HostFramework::Angular => "angular"@,
        HostFramework::Vue => "vue"@,
        HostFramework::React => "react"@,
    }
}

impl HostFramework {
    /// The lower-case name of the framework.
    pub fn as_str(&self) -> (r: &'static str)
        ensures
            r@ == framework_name(*self),
    {
        match self {
            HostFramework::Auto => "auto",
            HostFramework::Angular => "angular",
            HostFramework::Vue => "vue",
            HostFramework::React => "react",
        }
    }
}

impl Default for HostFramework {
    fn default() -> (r: HostFramework)
        ensures
            r == HostFramework::Auto,
    {
        HostFramework::Auto
    }
}

/// Settings of the protection layers, as configured in the registry.
#[derive(Clone, Debug)]
pub struct ProtectionConfig {
    pub rate_limit_enabled: bool,
    pub rate_limit_requests_per_second: u32,
    pub rate_limit_burst: u32,
    pub rate_limit_by: String,
    pub max_connections_per_ip: u32,
    pub max_websocket_connections_per_ip: u32,
    pub request_timeout_ms: u64,
    pub header_read_timeout_ms: u64,
    pub body_read_timeout_ms: u64,
    pub idle_timeout_ms: u64,
    pub max_body_bytes: u64,
    pub max_header_bytes: u64,
    pub slowloris_timeout_ms: u64,
    pub ban_duration_seconds: u64,
    pub ban_threshold_violations: u32,
}

/// The protection settings used when the registry gives none.
pub open spec fn is_default_protection(c: ProtectionConfig) -> bool {
    &&& c.rate_limit_enabled
    &&& c.rate_limit_requests_per_second == 100
    &&& c.rate_limit_burst == 200
    &&& c.rate_limit_by@ == "ip"@
    &&& c.max_connections_per_ip == 50
    &&& c.max_websocket_connections_per_ip == 5
    &&& c.request_timeout_ms == 30_000
    &&& c.header_read_timeout_ms == 5_000
    &&& c.body_read_timeout_ms == 10_000
    &&& c.idle_timeout_ms == 60_000
    &&& c.max_body_bytes == 1_048_576
    &&& c.max_header_bytes == 8_192
    &&& c.slowloris_timeout_ms == 10_000
    &&& c.ban_duration_seconds == 300
    &&& c.ban_threshold_violations == 10
}

impl Default for ProtectionConfig {
    fn default() -> (r: ProtectionConfig)
        ensures
            is_default_protection(r),
    {
        ProtectionConfig {
            rate_limit_enabled: true,
            rate_limit_requests_per_second: 100,
            rate_limit_burst: 200,
            rate_limit_by: String::from_str("ip"),
            max_connections_per_ip: 50,
            max_websocket_connections_per_ip: 5,
            request_timeout_ms: 30_000,
            header_read_timeout_ms: 5_000,
            body_read_timeout_ms: 10_000,
            idle_timeout_ms: 60_000,
            max_body_bytes: 1_048_576,
            max_header_bytes: 8_192,
            slowloris_timeout_ms: 10_000,
            ban_duration_seconds: 300,
            ban_threshold_violations: 10,
        }
    }
}

/// A header that the operator asks to add to every proxied response.
#[derive(Clone, Debug)]
pub struct CustomHeader {
    pub name: String,
    pub value: String,
}

/// Gateway-wide configuration.
#[derive(Clone, Debug)]
pub struct GatewayConfig {
    pub cors_origins: Vec<String>,
    pub custom_headers: Vec<CustomHeader>,
    pub health_check_path: Option<String>,
    pub public_url: Option<String>,
    pub protection: ProtectionConfig,
}

impl Default for GatewayConfig {
    fn default() -> (r: GatewayConfig)
        ensures
            r.cors_origins@.len() == 0,
            r.custom_headers@.len() == 0,
            r.health_check_path is None,
            r.public_url is None,
            is_default_protection(r.protection),
    {
        GatewayConfig {
            cors_origins: Vec::new(),
            custom_headers: Vec::new(),
            health_check_path: None,
            public_url: None,
            protection: ProtectionConfig::default(),
        }
    }
}

/// What the gateway knows of its gate and of that gate's host.
#[derive(Clone, Debug)]
pub struct GatewayState {
    pub gate_id: String,
    pub gate_name: String,
    pub host_id: String,
    pub host_name: String,
    pub host_url: String,
    pub host_framework: HostFramework,
    pub host_remote_entry: String,
    pub host_exposed_module: String,
    pub gateway_config: GatewayConfig,
    pub registry_url: String,
    pub nexus_token: String,
    pub registry_connected: bool,
}

impl GatewayState {
    /// The configured health-check path, `/health` when none is set.
    pub fn health_check_path(&self) -> (r: &str)
        ensures
            r@ == (match self.gateway_config.health_check_path {
                Some(p) => p@,
                None => "/health"@,
            }),
    {
        match &self.gateway_config.health_check_path {
            Some(p) => p.as_str(),
            None => "/health",
        }
    }
}

/// A gate as the registry describes it.
#[derive(Clone, Debug)]
pub struct RegistryGate {
    pub id: String,
    pub name: String,
    pub host: Option<RegistryHost>,
}

/// A host shell as the registry describes it.
#[derive(Clone, Debug)]
pub struct RegistryHost {
    pub id: String,
    pub name: String,
    pub url: String,
    pub framework: HostFramework,
    pub remote_entry: String,
    pub exposed_module: String,
}

/// A remote micro front-end as the registry describes it.
#[derive(Clone, Debug)]
pub struct RegistryRemote {
    pub name: String,
    pub url: String,
    pub route_path: String,
    pub upstream_url: String,
    pub visibility: String,
    pub enabled: bool,
}

/// The gateway configuration section as the registry answers it.
#[derive(Clone, Debug)]
pub struct RegistryGatewayConfig {
    pub cors_origins: Vec<String>,
    pub custom_headers: Vec<CustomHeader>,
    pub health_check_path: Option<String>,
    pub public_url: Option<String>,
    pub protection: Option<ProtectionConfig>,
}

impl Default for RegistryGatewayConfig {
    fn default() -> (r: RegistryGatewayConfig)
        ensures
            r.cors_origins@.len() == 0,
            r.custom_headers@.len() == 0,
            r.health_check_path is None,
            r.public_url is None,
            r.protection is None,
    {
        RegistryGatewayConfig {
            cors_origins: Vec::new(),
            custom_headers: Vec::new(),
            health_check_path: None,
            public_url: None,
            protection: None,
        }
    }
}

} // verus!
