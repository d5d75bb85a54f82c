//! Talking to the registry: its URLs, the reconnect back-off, and how its
//! change events update the gateway state and the route table.
use vstd::prelude::*;
use vstd::string::*;
use rand::Rng;
use crate::route_table::{empty_routes, lists_routes, RouteMap, RouteTable, UpstreamTarget};
use crate::startup::{
    has_host_fields, host_route_table, lemma_remote_routes_outside, remote_routes, route_table_for,
    set_host_routes, with_host_url,
};
use crate::state::{GatewayState, HostFramework, ProtectionConfig, RegistryGate, RegistryRemote};
use crate::proxy::query_suffix;
use crate::text::{
    chars_of, contains_seq, has_substring, push_str, replace_first, replace_first_chars, starts_with,
    str_eq, string_of, trim_end_char, trim_end_chars,
};

verus! {

/// The registry URL without trailing `/`.
pub open spec fn registry_base_of(url: Seq<char>) -> Seq<char> {
    trim_end_char(url, '/')
}

/// The registry base URL, to which API paths are appended.
pub fn registry_base(registry_url: &str) -> (r: String)
    ensures
        r@ == registry_base_of(registry_url@),
{
    let u = chars_of(registry_url);
    let t = trim_end_chars(u.as_slice(), '/');
    string_of(t.as_slice())
}

/// A resource of the registry's HTTP API that the gateway requests.
pub enum RegistryResource {
    /// A gate by the domain it serves.
    GateByDomain { domain: String },
    /// A gate by its id.
    Gate { id: String },
    /// The gates collection, where gates are created.
    Gates,
    /// A host by its name.
    Host { name: String },
    /// The hosts collection, where hosts are created.
    Hosts,
    /// The remotes of a host, by the host's id.
    HostRemotes { host_id: String },
    /// The gateway configuration section.
    GatewayConfig,
}

/// The API path of a resource.
pub open spec fn resource_path(res: RegistryResource) -> Seq<char> {
    match res {
        RegistryResource::GateByDomain { domain } => "/api/gates/by-domain/"@ + domain@,
        RegistryResource::Gate { id } => "/api/gates/"@ + id@,
        RegistryResource::Gates => "/api/gates"@,
        RegistryResource::Host { name } => "/api/hosts/"@ + name@,
        RegistryResource::Hosts => "/api/hosts"@,
        RegistryResource::HostRemotes { host_id } => "/api/hosts/"@ + host_id@ + "/remotes"@,
        RegistryResource::GatewayConfig => "/api/config/gateway"@,
    }
}

/// The URL of a registry resource: the base URL, then the resource's path.
pub fn resource_url(registry_url: &str, res: &RegistryResource) -> (r: String)
    ensures
        r@ == registry_base_of(registry_url@) + resource_path(*res),
{
    let mut r = registry_base(registry_url);
    match res {
        RegistryResource::GateByDomain { domain } => {
            push_str(&mut r, "/api/gates/by-domain/");
            push_str(&mut r, domain.as_str());
        },
        RegistryResource::Gate { id } => {
            push_str(&mut r, "/api/gates/");
            push_str(&mut r, id.as_str());
        },
        RegistryResource::Gates => {
            push_str(&mut r, "/api/gates");
        },
        RegistryResource::Host { name } => {
            push_str(&mut r, "/api/hosts/");
            push_str(&mut r, name.as_str());
        },
        RegistryResource::Hosts => {
            push_str(&mut r, "/api/hosts");
        },
        RegistryResource::HostRemotes { host_id } => {
            push_str(&mut r, "/api/hosts/");
            push_str(&mut r, host_id.as_str());
            push_str(&mut r, "/remotes");
        },
        RegistryResource::GatewayConfig => {
            push_str(&mut r, "/api/config/gateway");
        },
    }
    r
}

/// Whether a failed registry request reports a missing resource (its
/// message names the status 404): then the gateway registers itself.
pub fn is_not_found_failure(message: &str) -> (r: bool)
    ensures
        r == contains_seq(message@, "404"@),
{
    let m = chars_of(message);
    let p = chars_of("404");
    has_substring(m.as_slice(), p.as_slice())
}

/// Whether a failed creation reports a conflict: another instance created
/// this gateway's gate first, which start-up tolerates.
pub fn is_conflict_failure(message: &str) -> (r: bool)
    ensures
        r == contains_seq(message@, "conflict"@),
{
    let m = chars_of(message);
    let p = chars_of("conflict");
    has_substring(m.as_slice(), p.as_slice())
}

/// The WebSocket form of the registry base URL: the first `https://`
/// becomes `wss://`, then the first `http://` becomes `ws://`.
pub open spec fn ws_base_of(url: Seq<char>) -> Seq<char> {
    replace_first(replace_first(registry_base_of(url), "https://"@, "wss://"@), "http://"@, "ws://"@)
}

fn ws_base(registry_url: &str) -> (r: String)
    ensures
        r@ == ws_base_of(registry_url@),
{
    let u = chars_of(registry_url);
    let t = trim_end_chars(u.as_slice(), '/');
    let https = chars_of("https://");
    let wss = chars_of("wss://");
    let http = chars_of("http://");
    let ws = chars_of("ws://");
    proof {
        reveal_strlit("https://");
        reveal_strlit("http://");
    }
    let a = replace_first_chars(t.as_slice(), https.as_slice(), wss.as_slice());
    let b = replace_first_chars(a.as_slice(), http.as_slice(), ws.as_slice());
    string_of(b.as_slice())
}

/// The registry's event socket: `/api/ws?token=` and the token.
pub open spec fn events_url_of(url: Seq<char>, token: Seq<char>) -> Seq<char> {
    ws_base_of(url) + "/api/ws?token="@ + token
}

/// The URL of the registry's event socket for this gateway.
pub fn registry_events_url(registry_url: &str, token: &str) -> (r: String)
    ensures
        r@ == events_url_of(registry_url@, token@),
{
    let mut r = ws_base(registry_url);
    push_str(&mut r, "/api/ws?token=");
    push_str(&mut r, token);
    r
}

/// The registry's browser socket, `/ws` with the client's query.
pub open spec fn socket_url_of(url: Seq<char>, query: Option<Seq<char>>) -> Seq<char> {
    ws_base_of(url) + "/ws"@ + query_suffix(query)
}

/// The URL that a browser WebSocket is relayed to.
pub fn registry_socket_url(registry_url: &str, query: Option<&str>) -> (r: String)
    ensures
        r@ == socket_url_of(
            registry_url@,
            match query {
                Some(q) => Some(q@),
                None => None,
            },
        ),
{
    let mut r = ws_base(registry_url);
    push_str(&mut r, "/ws");
    match query {
        Some(q) => {
            push_str(&mut r, "?");
            push_str(&mut r, q);
        },
        None => {},
    }
    proof {
        reveal_strlit("?");
        let qv = match query {
            Some(q) => Some(q@),
            None => None,
        };
        assert(r@ =~= socket_url_of(registry_url@, qv));
    }
    r
}

/// Nanoseconds of the longest duration the clock type can hold.
pub open spec fn longest_duration() -> int {
    u64::MAX * 1_000_000_000 + 999_999_999
}

pub open spec fn min_of(a: int, b: int) -> int {
    if a <= b {
        a
    } else {
        b
    }
}

/// `rand::Rng::gen_range(0..=max_ms)` on the thread's generator: a random
/// number between 0 and `max_ms`, both included.
#[verifier::external_body]
fn jitter_ms(max_ms: u64) -> (r: u64)
    ensures
        r <= max_ms,
{
    rand::thread_rng().gen_range(0u64..=max_ms)
}

/// The most jitter added to a reconnect pause, in milliseconds.
pub const MAX_JITTER_MS: u64 = 500;

/// Reconnect delays, in nanoseconds.
pub struct Backoff {
    base_ns: u128,
    max_ns: u128,
}

impl Backoff {
    pub closed spec fn base(&self) -> int {
        self.base_ns as int
    }

    pub closed spec fn cap(&self) -> int {
        self.max_ns as int
    }

    /// Both delays fit the clock's durations.
    pub open spec fn wf(&self) -> bool {
        self.base() <= longest_duration() && self.cap() <= longest_duration()
    }

    /// One second at first, at most thirty.
    pub fn initial() -> (r: Backoff)
        ensures
            r.wf(),
            r.base() == 1_000_000_000,
            r.cap() == 30_000_000_000,
    {
        Backoff { base_ns: 1_000_000_000, max_ns: 30_000_000_000 }
    }

    /// The delays of a reconnect policy given in milliseconds.
    pub fn from_policy(initial_delay_ms: u64, max_delay_ms: u64) -> (r: Backoff)
        ensures
            r.wf(),
            r.base() == initial_delay_ms * 1_000_000,
            r.cap() == max_delay_ms * 1_000_000,
    {
        Backoff {
            base_ns: (initial_delay_ms as u128) * 1_000_000,
            max_ns: (max_delay_ms as u128) * 1_000_000,
        }
    }

    /// The pause before the next attempt: the delay, capped, plus the
    /// jitter.
    pub fn sleep_ns(&self, jitter_ms: u64) -> (r: u128)
        requires
            self.wf(),
        ensures
            r == min_of(self.base(), self.cap()) + jitter_ms * 1_000_000,
    {
        let d = if self.base_ns <= self.max_ns {
            self.base_ns
        } else {
            self.max_ns
        };
        d + (jitter_ms as u128) * 1_000_000
    }

    /// The pause before the next attempt, with a random jitter of up to
    /// half a second.
    pub fn next_sleep_ns(&self) -> (r: u128)
        requires
            self.wf(),
        ensures
            min_of(self.base(), self.cap()) <= r <= min_of(self.base(), self.cap()) + 500_000_000,
    {
        let j = jitter_ms(MAX_JITTER_MS);
        self.sleep_ns(j)
    }

    /// One step of retrying a registry request that failed after
    /// `elapsed_ns` of a `budget_ns` budget: when the budget is spent, give
    /// up (`None`, the delays unchanged); otherwise the pause before the
    /// next try, and the delay doubled for the try after.
    pub fn retry_pause(&mut self, elapsed_ns: u128, budget_ns: u128) -> (r: Option<u128>)
        requires
            old(self).wf(),
        ensures
            final(self).wf(),
            elapsed_ns >= budget_ns ==> r is None && *final(self) == *old(self),
            elapsed_ns < budget_ns ==> {
                &&& r is Some
                &&& min_of(old(self).base(), old(self).cap()) <= r->Some_0
                &&& r->Some_0 <= min_of(old(self).base(), old(self).cap()) + 500_000_000
                &&& final(self).base() == min_of(2 * old(self).base(), longest_duration())
                &&& final(self).cap() == old(self).cap()
            },
    {
        if elapsed_ns >= budget_ns {
            return None;
        }
        let pause = self.next_sleep_ns();
        self.advance_doubling();
        Some(pause)
    }

    /// Doubles the delay, never past the cap.
    pub fn advance_capped(&mut self)
        requires
            old(self).wf(),
        ensures
            final(self).wf(),
            final(self).base() == min_of(2 * old(self).base(), old(self).cap()),
            final(self).cap() == old(self).cap(),
    {
        let doubled = self.base_ns * 2;
        self.base_ns = if doubled <= self.max_ns {
            doubled
        } else {
            self.max_ns
        };
    }

    /// Doubles the delay, saturating at the longest duration.
    pub fn advance_doubling(&mut self)
        requires
            old(self).wf(),
        ensures
            final(self).wf(),
            final(self).base() == min_of(2 * old(self).base(), longest_duration()),
            final(self).cap() == old(self).cap(),
    {
        let doubled = self.base_ns * 2;
        let longest: u128 = 18_446_744_073_709_551_615u128 * 1_000_000_000 + 999_999_999;
        self.base_ns = if doubled <= longest {
            doubled
        } else {
            longest
        };
    }
}

/// A change of the host shell announced by the registry; absent fields
/// stay as they are.
pub struct HostChange {
    pub id: String,
    pub url: Option<String>,
    pub framework: Option<HostFramework>,
    pub remote_entry: Option<String>,
    pub exposed_module: Option<String>,
}

/// A message pushed by the registry over its event socket.
pub enum RegistryEvent {
    RemotesChanged { remotes: Vec<RegistryRemote> },
    HostChanged { host: HostChange },
    GateChanged { gate_id: String },
    ConfigChanged { section: String, protection: Option<ProtectionConfig> },
    ReconnectPolicyChanged { initial_delay_ms: u64, max_delay_ms: u64 },
    Unknown,
}

/// What the caller must do after an event.
pub enum FollowUp {
    Nothing,
    /// Fetch this gateway's gate and its host's remotes again, then call
    /// `apply_gate_reassignment`.
    RefetchGate { gate_id: String },
}

/// The configuration section that carries the protection settings.
pub open spec fn is_protection_section_of(section: Seq<char>) -> bool {
    section == "gateway_protection"@
}

/// What happened to the connection to the registry's event socket.
pub enum SocketEvent {
    /// The socket is open.
    Connected,
    /// An open socket was closed or failed.
    Disconnected,
    /// The socket could not be opened.
    ConnectFailed,
}

/// What the caller must do next with the event socket.
pub enum SocketAction {
    /// Send the `subscribe_gate` message for this gate name, then read
    /// events.
    Subscribe { gate_name: String },
    /// Wait this many nanoseconds, then connect again.
    Reconnect { pause_ns: u128 },
}

/// The state of the registry connection after a socket event: an open
/// socket marks the registry connected and subscribes to this gateway's
/// gate; a closed one marks it disconnected; after a close or a failed
/// connect, the caller waits the back-off pause, and the delay doubles up
/// to its cap.
pub fn on_socket_event(state: &mut GatewayState, backoff: &mut Backoff, event: SocketEvent) -> (r: SocketAction)
    requires
        old(backoff).wf(),
    ensures
        final(backoff).wf(),
        match event {
            SocketEvent::Connected => {
                &&& *final(state) == GatewayState { registry_connected: true, ..*old(state) }
                &&& *final(backoff) == *old(backoff)
                &&& r is Subscribe
                &&& r->gate_name@ == old(state).gate_name@
            },
            _ => {
                &&& *final(state) == (match event {
                    SocketEvent::Disconnected => GatewayState { registry_connected: false, ..*old(state) },
                    _ => *old(state),
                })
                &&& r is Reconnect
                &&& min_of(old(backoff).base(), old(backoff).cap()) <= r->pause_ns
                &&& r->pause_ns <= min_of(old(backoff).base(), old(backoff).cap()) + 500_000_000
                &&& final(backoff).base() == min_of(2 * old(backoff).base(), old(backoff).cap())
                &&& final(backoff).cap() == old(backoff).cap()
            },
        },
{
    match event {
        SocketEvent::Connected => {
            state.registry_connected = true;
            SocketAction::Subscribe { gate_name: state.gate_name.clone() }
        },
        SocketEvent::Disconnected => {
            state.registry_connected = false;
            let pause_ns = backoff.next_sleep_ns();
            backoff.advance_capped();
            SocketAction::Reconnect { pause_ns }
        },
        SocketEvent::ConnectFailed => {
            let pause_ns = backoff.next_sleep_ns();
            backoff.advance_capped();
            SocketAction::Reconnect { pause_ns }
        },
    }
}

/// Whether a `config_changed` event carries protection settings.
pub fn is_protection_section(section: &str) -> (r: bool)
    ensures
        r == is_protection_section_of(section@),
{
    str_eq(section, "gateway_protection")
}

/// The remote routes replaced: the routes outside `/remotes/` stay, the
/// visible remotes with an upstream are added.
pub open spec fn with_new_remotes(m: RouteMap, remotes: Seq<RegistryRemote>, host_id: Seq<char>) -> RouteMap {
    remote_routes(m.restrict(m.dom().filter(|k: Seq<char>| !starts_with(k, "/remotes/"@))), remotes, host_id, true)
}

/// A change of remotes leaves every route outside `/remotes/` as it was:
/// the host routes stay whatever the registry sends.
pub proof fn lemma_remote_changes_keep_host_routes(
    m: RouteMap,
    remotes: Seq<RegistryRemote>,
    host_id: Seq<char>,
    k: Seq<char>,
)
    requires
        !starts_with(k, "/remotes/"@),
    ensures
        with_new_remotes(m, remotes, host_id).contains_key(k) == m.contains_key(k),
        m.contains_key(k) ==> with_new_remotes(m, remotes, host_id)[k] == m[k],
{
    let kept = m.restrict(m.dom().filter(|q: Seq<char>| !starts_with(q, "/remotes/"@)));
    lemma_remote_routes_outside(kept, remotes, host_id, true, k);
    assert(m.dom().filter(|q: Seq<char>| !starts_with(q, "/remotes/"@)).contains(k) == m.contains_key(k));
}

/// The state and routes after a host change: nothing changes unless the
/// change is about this gateway's host; then each field given replaces the
/// old one, and a new URL also moves the host routes (`/host/`, and the
/// catch-all `/`, which goes away when the new URL is empty).
pub open spec fn host_change_applied(
    s0: GatewayState,
    m0: RouteMap,
    h: HostChange,
    s1: GatewayState,
    m1: RouteMap,
) -> bool {
    if h.id@ != s0.host_id@ {
        s1 == s0 && m1 == m0
    } else {
        &&& s1.host_url@ == (match h.url {
            Some(u) => u@,
            None => s0.host_url@,
        })
        &&& m1 == (match h.url {
            Some(u) => with_host_url(m0, u@),
            None => m0,
        })
        &&& s1.host_framework == (match h.framework {
            Some(f) => f,
            None => s0.host_framework,
        })
        &&& s1.host_remote_entry@ == (match h.remote_entry {
            Some(e) => e@,
            None => s0.host_remote_entry@,
        })
        &&& s1.host_exposed_module@ == (match h.exposed_module {
            Some(e) => e@,
            None => s0.host_exposed_module@,
        })
        &&& s1.gate_id == s0.gate_id
        &&& s1.gate_name == s0.gate_name
        &&& s1.host_id == s0.host_id
        &&& s1.host_name == s0.host_name
        &&& s1.gateway_config == s0.gateway_config
        &&& s1.registry_url == s0.registry_url
        &&& s1.nexus_token == s0.nexus_token
        &&& s1.registry_connected == s0.registry_connected
    }
}

/// A host change for this gateway's host takes every field the change
/// carries and keeps the others; the host routes go to a new URL; a change
/// for another host leaves state and routes as they were.
pub open spec fn takes_host_fields(s0: GatewayState, m0: RouteMap, h: HostChange, s1: GatewayState, m1: RouteMap) -> bool {
    &&& h.id@ != s0.host_id@ ==> s1 == s0 && m1 == m0
    &&& h.id@ == s0.host_id@ ==> {
        &&& (h.url matches Some(u) ==> s1.host_url@ == u@ && m1.contains_key("/host/"@) && m1["/host/"@] == (
            u@,
            true,
        ))
        &&& (h.url is None ==> s1.host_url@ == s0.host_url@ && m1 == m0)
        &&& (h.framework matches Some(f) ==> s1.host_framework == f)
        &&& (h.framework is None ==> s1.host_framework == s0.host_framework)
        &&& (h.remote_entry matches Some(e) ==> s1.host_remote_entry@ == e@)
        &&& (h.remote_entry is None ==> s1.host_remote_entry@ == s0.host_remote_entry@)
        &&& (h.exposed_module matches Some(e) ==> s1.host_exposed_module@ == e@)
        &&& (h.exposed_module is None ==> s1.host_exposed_module@ == s0.host_exposed_module@)
        &&& s1.host_id == s0.host_id
        &&& s1.gate_id == s0.gate_id
    }
}

/// Applying a host change takes each field it announces: the URL (and the
/// `/host/` route), framework, remote entry and exposed module of this
/// gateway's host become the announced values.
pub proof fn lemma_host_change_takes_fields(s0: GatewayState, m0: RouteMap, h: HostChange, s1: GatewayState, m1: RouteMap)
    requires
        host_change_applied(s0, m0, h, s1, m1),
    ensures
        takes_host_fields(s0, m0, h, s1, m1),
{
    reveal_strlit("/host/");
    reveal_strlit("/");
    if h.id@ == s0.host_id@ {
        if h.url is Some {
            let u = h.url->Some_0@;
            assert("/host/"@ != "/"@) by {
                assert("/host/"@.len() != "/"@.len());
            }
            let a = m0.insert("/host/"@, (u, true));
            assert(a.contains_key("/host/"@) && a["/host/"@] == (u, true));
            if u.len() > 0 {
                assert(m1 == a.insert("/"@, (u, true)));
            } else {
                assert(m1 == a.remove("/"@));
            }
        }
    }
}

fn apply_host_change(state: &mut GatewayState, routes: &mut RouteTable, host: HostChange)
    ensures
        host_change_applied(*old(state), old(routes)@, host, *final(state), final(routes)@),
{
    if !str_eq(host.id.as_str(), state.host_id.as_str()) {
        return;
    }
    match host.url {
        Some(url) => {
            set_host_routes(routes, url.as_str());
            state.host_url = url;
        },
        None => {},
    }
    match host.framework {
        Some(f) => {
            state.host_framework = f;
        },
        None => {},
    }
    match host.remote_entry {
        Some(e) => {
            state.host_remote_entry = e;
        },
        None => {},
    }
    match host.exposed_module {
        Some(e) => {
            state.host_exposed_module = e;
        },
        None => {},
    }
}

/// Applies one registry event. Remote changes replace the remote routes;
/// a change of this gateway's host updates its fields and, with a new URL,
/// its host routes; a change of this gateway's gate asks the caller to fetch it
/// again; protection settings replace the current ones; a reconnect policy
/// replaces the back-off; anything else is ignored.
pub fn handle_event(
    state: &mut GatewayState,
    routes: &mut RouteTable,
    backoff: &mut Backoff,
    event: RegistryEvent,
) -> (r: FollowUp)
    ensures
        match event {
            RegistryEvent::RemotesChanged { remotes } => {
                &&& final(routes)@ == with_new_remotes(old(routes)@, remotes@, old(state).host_id@)
                &&& *final(state) == *old(state)
                &&& *final(backoff) == *old(backoff)
                &&& r is Nothing
            },
            RegistryEvent::HostChanged { host } => {
                &&& host_change_applied(*old(state), old(routes)@, host, *final(state), final(routes)@)
                &&& takes_host_fields(*old(state), old(routes)@, host, *final(state), final(routes)@)
                &&& *final(backoff) == *old(backoff)
                &&& r is Nothing
            },
            RegistryEvent::GateChanged { gate_id } => {
                &&& *final(state) == *old(state)
                &&& final(routes)@ == old(routes)@
                &&& *final(backoff) == *old(backoff)
                &&& if gate_id@ == old(state).gate_id@ {
                    r is RefetchGate && r->gate_id@ == gate_id@
                } else {
                    r is Nothing
                }
            },
            RegistryEvent::ConfigChanged { section, protection } => {
                &&& final(routes)@ == old(routes)@
                &&& *final(backoff) == *old(backoff)
                &&& r is Nothing
                &&& if is_protection_section_of(section@) && protection is Some {
                    *final(state) == GatewayState {
                        gateway_config: crate::state::GatewayConfig {
                            protection: protection->Some_0,
                            ..old(state).gateway_config
                        },
                        ..*old(state)
                    }
                } else {
                    *final(state) == *old(state)
                }
            },
            RegistryEvent::ReconnectPolicyChanged { initial_delay_ms, max_delay_ms } => {
                &&& *final(state) == *old(state)
                &&& final(routes)@ == old(routes)@
                &&& final(backoff).wf()
                &&& final(backoff).base() == initial_delay_ms * 1_000_000
                &&& final(backoff).cap() == max_delay_ms * 1_000_000
                &&& r is Nothing
            },
            RegistryEvent::Unknown => {
                &&& *final(state) == *old(state)
                &&& final(routes)@ == old(routes)@
                &&& *final(backoff) == *old(backoff)
                &&& r is Nothing
            },
        },
{
    match event {
        RegistryEvent::RemotesChanged { remotes } => {
            routes.clear_remotes();
            crate::startup::add_remote_routes(routes, state.host_id.as_str(), remotes.as_slice(), true);
            FollowUp::Nothing
        },
        RegistryEvent::HostChanged { host } => {
            let ghost s0 = *state;
            let ghost m0 = routes@;
            let ghost h = host;
            apply_host_change(state, routes, host);
            proof {
                lemma_host_change_takes_fields(s0, m0, h, *state, routes@);
            }
            FollowUp::Nothing
        },
        RegistryEvent::GateChanged { gate_id } => {
            if str_eq(gate_id.as_str(), state.gate_id.as_str()) {
                FollowUp::RefetchGate { gate_id }
            } else {
                FollowUp::Nothing
            }
        },
        RegistryEvent::ConfigChanged { section, protection } => {
            if is_protection_section(section.as_str()) {
                match protection {
                    Some(p) => {
                        state.gateway_config.protection = p;
                    },
                    None => {},
                }
            }
            FollowUp::Nothing
        },
        RegistryEvent::ReconnectPolicyChanged { initial_delay_ms, max_delay_ms } => {
            *backoff = Backoff::from_policy(initial_delay_ms, max_delay_ms);
            FollowUp::Nothing
        },
        RegistryEvent::Unknown => FollowUp::Nothing,
    }
}

/// After its gate was fetched again: its id and host fields are taken
/// from it, and the route table is rebuilt from scratch for the host and
/// its visible remotes that have an upstream.
pub fn apply_gate_reassignment(
    state: &mut GatewayState,
    routes: &mut RouteTable,
    gate: RegistryGate,
    remotes: &[RegistryRemote],
)
    ensures
        final(state).gate_id@ == gate.id@,
        has_host_fields(*final(state), gate.host),
        final(state).gate_name == old(state).gate_name,
        final(state).gateway_config == old(state).gateway_config,
        final(state).registry_url == old(state).registry_url,
        final(state).nexus_token == old(state).nexus_token,
        final(state).registry_connected == old(state).registry_connected,
        final(routes)@ == route_table_for(final(state).host_url@, final(state).host_id@, remotes@, true),
{
    state.gate_id = gate.id;
    state.set_host(gate.host);
    routes.clear();
    let fresh = host_route_table(state.host_url.as_str(), state.host_id.as_str(), remotes, true);
    let entries = fresh.iter_all();
    let ghost m = fresh@;
    for i in 0..entries.len()
        invariant
            lists_routes(m, entries@),
            forall|k: Seq<char>|
                #[trigger] routes@.contains_key(k) <==> exists|j: int|
                    0 <= j < i && #[trigger] entries@[j].0@ == k,
            forall|k: Seq<char>| #[trigger] routes@.contains_key(k) ==> m.contains_key(k) && routes@[k] == m[k],
    {
        assert(m.contains_key(entries@[i as int].0@));
        let ghost before = routes@;
        routes.upsert(entries[i].0.as_str(), entries[i].1.copy());
        proof {
            assert forall|k: Seq<char>| #[trigger] routes@.contains_key(k) <==> exists|j: int|
                0 <= j < i + 1 && #[trigger] entries@[j].0@ == k by {
                if k == entries@[i as int].0@ {
                    assert(entries@[i as int].0@ == k);
                } else if before.contains_key(k) {
                    let j = choose|j: int| 0 <= j < i && #[trigger] entries@[j].0@ == k;
                    assert(entries@[j].0@ == k);
                }
            }
        }
    }
    proof {
        assert forall|k: Seq<char>| #[trigger] m.contains_key(k) implies routes@.contains_key(k) by {
            let j = choose|j: int| 0 <= j < entries@.len() && #[trigger] entries@[j].0@ == k;
            assert(entries@[j].0@ == k);
        }
        assert(routes@ =~= m);
    }
}

} // verus!
