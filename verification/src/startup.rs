//! Start-up decisions: which remotes are visible, how the route table is
//! built, how a gate label is derived, and how the registry's answers
//! become the gateway state.
use vstd::prelude::*;
use vstd::string::*;
use crate::route_table::{resolves_to, serves, RouteMap, RouteTable, UpstreamTarget};
use crate::state::{
    is_default_protection, GatewayConfig, GatewayState, HostFramework, ProtectionConfig,
    RegistryGate, RegistryGatewayConfig, RegistryHost, RegistryRemote,
};
use crate::text::{
    chars_of, push_char, push_str, same_chars, starts_with, string_of, trim_both_char, trim_both_chars,
};

verus! {

/// Settings read from the environment at start-up.
pub struct Env {
    pub nexus_token: String,
    pub registry_url: String,
    pub gate_name: String,
    pub host_name: Option<String>,
    pub host_url: Option<String>,
    pub host_framework: Option<String>,
    pub host_remote_entry: Option<String>,
    pub host_exposed_module: Option<String>,
    pub gate_label: Option<String>,
}

/// A remote is visible to a host when it is global or scoped to that host.
pub open spec fn visible(visibility: Seq<char>, host_id: Seq<char>) -> bool {
    visibility == "global"@ || visibility == "host:"@ + host_id
}

/// Whether `remote` may be routed for the host `host_id`.
pub fn is_visible(remote: &RegistryRemote, host_id: &str) -> (r: bool)
    ensures
        r == visible(remote.visibility@, host_id@),
{
    let v = chars_of(remote.visibility.as_str());
    let global = chars_of("global");
    if same_chars(v.as_slice(), global.as_slice()) {
        return true;
    }
    let mut scoped = String::from_str("host:");
    push_str(&mut scoped, host_id);
    let sc = chars_of(scoped.as_str());
    same_chars(v.as_slice(), sc.as_slice())
}

/// The route prefix of a remote: `/remotes/<route path without outer '/'>/`.
pub open spec fn remote_prefix(route_path: Seq<char>) -> Seq<char> {
    "/remotes/"@ + trim_both_char(route_path, '/') + seq!['/']
}

/// The route prefix under which a remote is served.
pub fn remote_route_prefix(route_path: &str) -> (r: String)
    ensures
        r@ == remote_prefix(route_path@),
{
    let rp = chars_of(route_path);
    let t = trim_both_chars(rp.as_slice(), '/');
    let mut r = String::from_str("/remotes/");
    let ts = string_of(t.as_slice());
    push_str(&mut r, ts.as_str());
    push_char(&mut r, '/');
    r
}

/// Whether a remote gets a route of its own for the host `host_id`: it is
/// visible, and, when `need_upstream` holds, it has an upstream to send to.
pub open spec fn routes_remote(r: RegistryRemote, host_id: Seq<char>, need_upstream: bool) -> bool {
    visible(r.visibility@, host_id) && (!need_upstream || r.upstream_url@.len() > 0)
}

/// The routes of `base` with those of the remotes added, later remotes
/// overriding earlier ones with the same prefix. Start-up routes every
/// visible remote; updates from the registry (`need_upstream`) skip the
/// remotes without an upstream.
pub open spec fn remote_routes(
    base: RouteMap,
    remotes: Seq<RegistryRemote>,
    host_id: Seq<char>,
    need_upstream: bool,
) -> RouteMap
    decreases remotes.len(),
{
    if remotes.len() == 0 {
        base
    } else {
        let rest = remote_routes(base, remotes.drop_last(), host_id, need_upstream);
        let r = remotes.last();
        if routes_remote(r, host_id, need_upstream) {
            rest.insert(remote_prefix(r.route_path@), (r.upstream_url@, r.enabled))
        } else {
            rest
        }
    }
}

/// The routes after the host shell's URL is set: `/host/` goes there, and
/// the catch-all `/` too when there is a host URL; without one there is no
/// catch-all, so that unrouted paths get the page shell.
pub open spec fn with_host_url(m: RouteMap, url: Seq<char>) -> RouteMap {
    if url.len() > 0 {
        m.insert("/host/"@, (url, true)).insert("/"@, (url, true))
    } else {
        m.insert("/host/"@, (url, true)).remove("/"@)
    }
}

/// The routes of the host shell alone.
pub open spec fn host_routes(host_url: Seq<char>) -> RouteMap {
    with_host_url(Map::<Seq<char>, (Seq<char>, bool)>::empty(), host_url)
}

/// The whole route table for a host and its remotes.
pub open spec fn route_table_for(
    host_url: Seq<char>,
    host_id: Seq<char>,
    remotes: Seq<RegistryRemote>,
    need_upstream: bool,
) -> RouteMap {
    remote_routes(host_routes(host_url), remotes, host_id, need_upstream)
}

pub(crate) proof fn lemma_remote_routes_outside(
    base: RouteMap,
    remotes: Seq<RegistryRemote>,
    host_id: Seq<char>,
    need_upstream: bool,
    k: Seq<char>,
)
    requires
        !starts_with(k, "/remotes/"@),
    ensures
        remote_routes(base, remotes, host_id, need_upstream).contains_key(k) == base.contains_key(k),
        base.contains_key(k) ==> remote_routes(base, remotes, host_id, need_upstream)[k] == base[k],
    decreases remotes.len(),
{
    if remotes.len() > 0 {
        lemma_remote_routes_outside(base, remotes.drop_last(), host_id, need_upstream, k);
        let r = remotes.last();
        let p = remote_prefix(r.route_path@);
        reveal_strlit("/remotes/");
        assert(p.subrange(0, 9) =~= "/remotes/"@);
        assert(k != p);
    }
}

/// Points the host routes at `url`: `/host/`, and `/` when `url` is not
/// empty (otherwise `/` is removed).
pub fn set_host_routes(table: &mut RouteTable, url: &str)
    ensures
        final(table)@ == with_host_url(old(table)@, url@),
{
    table.upsert("/host/", UpstreamTarget { upstream_url: String::from_str(url), enabled: true });
    if url.is_empty() {
        table.remove("/");
    } else {
        table.upsert("/", UpstreamTarget { upstream_url: String::from_str(url), enabled: true });
    }
}

/// Adds the routes of the remotes that `routes_remote` admits.
pub fn add_remote_routes(table: &mut RouteTable, host_id: &str, remotes: &[RegistryRemote], need_upstream: bool)
    ensures
        final(table)@ == remote_routes(old(table)@, remotes@, host_id@, need_upstream),
{
    let ghost base = table@;
    for i in 0..remotes.len()
        invariant
            table@ == remote_routes(base, remotes@.take(i as int), host_id@, need_upstream),
    {
        assert(remotes@.take(i + 1).drop_last() =~= remotes@.take(i as int));
        assert(remotes@.take(i + 1).last() == remotes@[i as int]);
        let remote = &remotes[i];
        if is_visible(remote, host_id) && (!need_upstream || !remote.upstream_url.as_str().is_empty()) {
            let prefix = remote_route_prefix(remote.route_path.as_str());
            table.upsert(
                prefix.as_str(),
                UpstreamTarget { upstream_url: remote.upstream_url.clone(), enabled: remote.enabled },
            );
        }
    }
    assert(remotes@.take(remotes@.len() as int) =~= remotes@);
}

/// The route table for a host and its remotes, built from scratch.
pub fn host_route_table(host_url: &str, host_id: &str, remotes: &[RegistryRemote], need_upstream: bool) -> (r: RouteTable)
    ensures
        r@ == route_table_for(host_url@, host_id@, remotes@, need_upstream),
{
    let mut table = RouteTable::new();
    set_host_routes(&mut table, host_url);
    add_remote_routes(&mut table, host_id, remotes, need_upstream);
    table
}

/// The start-up route table for a gateway state: the host under `/host/`
/// and, when it has a URL, under the catch-all `/`; each visible remote
/// under its own prefix, sent to its upstream address.
pub fn build_route_table(state: &GatewayState, remotes: &[RegistryRemote]) -> (r: RouteTable)
    ensures
        r@ == route_table_for(state.host_url@, state.host_id@, remotes@, false),
{
    host_route_table(state.host_url.as_str(), state.host_id.as_str(), remotes, false)
}

proof fn lemma_remote_routes_keys(
    base: RouteMap,
    remotes: Seq<RegistryRemote>,
    host_id: Seq<char>,
    need_upstream: bool,
    k: Seq<char>,
)
    ensures
        remote_routes(base, remotes, host_id, need_upstream).contains_key(k) ==> base.contains_key(k) || exists|i: int|
            0 <= i < remotes.len() && routes_remote(remotes[i], host_id, need_upstream) && k == remote_prefix(
                #[trigger] remotes[i].route_path@,
            ),
    decreases remotes.len(),
{
    if remotes.len() > 0 {
        let rest = remotes.drop_last();
        lemma_remote_routes_keys(base, rest, host_id, need_upstream, k);
        let last = remotes.len() - 1;
        if remote_routes(base, remotes, host_id, need_upstream).contains_key(k) && !base.contains_key(k) {
            if routes_remote(remotes[last], host_id, need_upstream) && k == remote_prefix(remotes[last].route_path@) {
                assert(0 <= last < remotes.len() && routes_remote(remotes[last], host_id, need_upstream));
            } else {
                let i = choose|i: int|
                    0 <= i < rest.len() && routes_remote(rest[i], host_id, need_upstream) && k == remote_prefix(
                        #[trigger] rest[i].route_path@,
                    );
                assert(rest[i] == remotes[i]);
            }
        }
    }
}

/// A routed remote's route carries that remote's own upstream address and
/// its own enabled flag: for the last remote that gets a route under a
/// prefix, the table holds exactly its address and flag there, so a
/// disabled remote is stored disabled.
pub proof fn lemma_remote_route_is_its_own(
    base: RouteMap,
    remotes: Seq<RegistryRemote>,
    host_id: Seq<char>,
    need_upstream: bool,
    i: int,
)
    requires
        0 <= i < remotes.len(),
        visible(remotes[i].visibility@, host_id),
        !need_upstream || remotes[i].upstream_url@.len() > 0,
        forall|j: int|
            i < j < remotes.len() && visible(remotes[j].visibility@, host_id) && (!need_upstream
                || remotes[j].upstream_url@.len() > 0) ==> remote_prefix(#[trigger] remotes[j].route_path@)
                != remote_prefix(remotes[i].route_path@),
    ensures
        remote_routes(base, remotes, host_id, need_upstream).contains_key(remote_prefix(remotes[i].route_path@)),
        remote_routes(base, remotes, host_id, need_upstream)[remote_prefix(remotes[i].route_path@)] == (
            remotes[i].upstream_url@,
            remotes[i].enabled,
        ),
    decreases remotes.len(),
{
    let last = remotes.len() - 1;
    if i < last {
        let rest = remotes.drop_last();
        assert forall|j: int|
            i < j < rest.len() && visible(rest[j].visibility@, host_id) && (!need_upstream
                || rest[j].upstream_url@.len() > 0) implies remote_prefix(#[trigger] rest[j].route_path@)
            != remote_prefix(rest[i].route_path@) by {
            assert(rest[j] == remotes[j]);
        }
        assert(rest[i] == remotes[i]);
        lemma_remote_route_is_its_own(base, rest, host_id, need_upstream, i);
        assert(remote_prefix(remotes[last].route_path@) == remote_prefix(remotes[last].route_path@));
    }
}

/// A disabled remote never takes traffic: no path resolves to the prefix
/// of a remote that is the last one routed under it and is disabled.
pub proof fn lemma_disabled_remote_never_serves(
    host_url: Seq<char>,
    host_id: Seq<char>,
    remotes: Seq<RegistryRemote>,
    need_upstream: bool,
    i: int,
    path: Seq<char>,
    r: Option<(Seq<char>, (Seq<char>, bool))>,
)
    requires
        0 <= i < remotes.len(),
        !remotes[i].enabled,
        visible(remotes[i].visibility@, host_id),
        !need_upstream || remotes[i].upstream_url@.len() > 0,
        forall|j: int|
            i < j < remotes.len() && visible(remotes[j].visibility@, host_id) && (!need_upstream
                || remotes[j].upstream_url@.len() > 0) ==> remote_prefix(#[trigger] remotes[j].route_path@)
                != remote_prefix(remotes[i].route_path@),
        resolves_to(route_table_for(host_url, host_id, remotes, need_upstream), path, r),
    ensures
        r is Some ==> r->Some_0.0 != remote_prefix(remotes[i].route_path@),
{
    lemma_remote_route_is_its_own(host_routes(host_url), remotes, host_id, need_upstream, i);
}

/// The host catch-all: with a host URL, every path that starts with `/`
/// is routed, and a path that neither `/host/` nor the prefix of a visible
/// remote starts goes to the host, under `/`.
pub proof fn lemma_host_catch_all(
    host_url: Seq<char>,
    host_id: Seq<char>,
    remotes: Seq<RegistryRemote>,
    need_upstream: bool,
    path: Seq<char>,
    r: Option<(Seq<char>, (Seq<char>, bool))>,
)
    requires
        host_url.len() > 0,
        starts_with(path, "/"@),
        resolves_to(route_table_for(host_url, host_id, remotes, need_upstream), path, r),
    ensures
        r is Some,
        !starts_with(path, "/host/"@) && (forall|i: int|
            0 <= i < remotes.len() && visible(remotes[i].visibility@, host_id) ==> !starts_with(
                path,
                remote_prefix(#[trigger] remotes[i].route_path@),
            )) ==> r == Some(("/"@, (host_url, true))),
{
    reveal_strlit("/");
    reveal_strlit("/host/");
    reveal_strlit("/remotes/");
    let m = route_table_for(host_url, host_id, remotes, need_upstream);
    let base = host_routes(host_url);
    assert(!starts_with("/"@, "/remotes/"@));
    lemma_remote_routes_outside(base, remotes, host_id, need_upstream, "/"@);
    assert(base.contains_key("/"@) && base["/"@] == (host_url, true));
    assert(serves(m, path, "/"@));
    if !starts_with(path, "/host/"@) && (forall|i: int|
        0 <= i < remotes.len() && visible(remotes[i].visibility@, host_id) ==> !starts_with(
            path,
            remote_prefix(#[trigger] remotes[i].route_path@),
        )) {
        let x = r->Some_0.0;
        assert(serves(m, path, x));
        lemma_remote_routes_keys(base, remotes, host_id, need_upstream, x);
        if !base.contains_key(x) {
            let i = choose|i: int|
                0 <= i < remotes.len() && routes_remote(remotes[i], host_id, need_upstream) && x == remote_prefix(
                    #[trigger] remotes[i].route_path@,
                );
            assert(!starts_with(path, remote_prefix(remotes[i].route_path@)));
        }
        assert(x == "/"@);
    }
}

pub open spec fn is_ascii_digit(c: char) -> bool {
    '0' <= c && c <= '9'
}

pub open spec fn is_ascii_alpha(c: char) -> bool {
    ('a' <= c && c <= 'z') || ('A' <= c && c <= 'Z')
}

pub open spec fn is_ascii_alnum(c: char) -> bool {
    is_ascii_digit(c) || is_ascii_alpha(c)
}

/// The ASCII letters and digits of `s`, in order.
pub open spec fn alnum_only(s: Seq<char>) -> Seq<char>
    decreases s.len(),
{
    if s.len() == 0 {
        s
    } else if is_ascii_alnum(s.last()) {
        alnum_only(s.drop_last()).push(s.last())
    } else {
        alnum_only(s.drop_last())
    }
}

/// A gate label derived when none is configured: the host name followed
/// by `Gate`; without a host, the ASCII letters and digits of the domain,
/// prefixed with `g` when they start with a digit, followed by `Gate`.
pub open spec fn gate_label_for(host_name: Option<Seq<char>>, gate_name: Seq<char>) -> Seq<char> {
    match host_name {
        Some(n) => n + "Gate"@,
        None => {
            let b = alnum_only(gate_name);
            (if b.len() > 0 && is_ascii_digit(b[0]) {
                seq!['g'] + b
            } else {
                b
            }) + "Gate"@
        },
    }
}

/// Derives a gate label from the host name or, without one, from the
/// gate domain.
pub fn derive_gate_label(host_name: Option<&str>, gate_name: &str) -> (r: String)
    ensures
        r@ == gate_label_for(
            match host_name {
                Some(n) => Some(n@),
                None => None,
            },
            gate_name@,
        ),
{
    match host_name {
        Some(n) => {
            let mut r = String::from_str(n);
            push_str(&mut r, "Gate");
            r
        },
        None => {
            let g = chars_of(gate_name);
            let mut b: Vec<char> = Vec::new();
            for i in 0..g.len()
                invariant
                    g@ == gate_name@,
                    b@ == alnum_only(g@.take(i as int)),
            {
                assert(g@.take(i + 1).drop_last() =~= g@.take(i as int));
                assert(g@.take(i + 1).last() == g@[i as int]);
                let c = g[i];
                if ('0' <= c && c <= '9') || ('a' <= c && c <= 'z') || ('A' <= c && c <= 'Z') {
                    b.push(c);
                }
            }
            assert(g@.take(g@.len() as int) =~= g@);
            let mut r = String::new();
            if b.len() > 0 && '0' <= b[0] && b[0] <= '9' {
                push_char(&mut r, 'g');
            }
            let bs = string_of(b.as_slice());
            push_str(&mut r, bs.as_str());
            push_str(&mut r, "Gate");
            proof {
                if b@.len() > 0 && is_ascii_digit(b@[0]) {
                    assert(r@ =~= seq!['g'] + b@ + "Gate"@);
                } else {
                    assert(r@ =~= b@ + "Gate"@);
                }
            }
            r
        },
    }
}

proof fn lemma_alnum_only_is_alnum(s: Seq<char>)
    ensures
        forall|i: int| 0 <= i < alnum_only(s).len() ==> is_ascii_alnum(#[trigger] alnum_only(s)[i]),
    decreases s.len(),
{
    if s.len() > 0 {
        lemma_alnum_only_is_alnum(s.drop_last());
        let prev = alnum_only(s.drop_last());
        assert forall|i: int| 0 <= i < alnum_only(s).len() implies is_ascii_alnum(
            #[trigger] alnum_only(s)[i],
        ) by {
            if i < prev.len() {
                assert(alnum_only(s)[i] == prev[i]);
            }
        }
    }
}

/// A label derived from a domain holds only ASCII letters and digits, and
/// starts with a letter.
pub proof fn lemma_derived_label_is_valid(gate_name: Seq<char>)
    ensures
        forall|i: int|
            0 <= i < gate_label_for(None, gate_name).len() ==> is_ascii_alnum(
                #[trigger] gate_label_for(None, gate_name)[i],
            ),
        gate_label_for(None, gate_name).len() > 0,
        is_ascii_alpha(gate_label_for(None, gate_name)[0]),
{
    reveal_strlit("Gate");
    lemma_alnum_only_is_alnum(gate_name);
    let b = alnum_only(gate_name);
    let l = gate_label_for(None, gate_name);
    if b.len() > 0 && is_ascii_digit(b[0]) {
        assert(l == seq!['g'] + b + "Gate"@);
        assert forall|i: int| 0 <= i < l.len() implies is_ascii_alnum(#[trigger] l[i]) by {
            if i == 0 {
            } else if i < b.len() + 1 {
                assert(l[i] == b[i - 1]);
            } else {
                assert(l[i] == "Gate"@[i - b.len() - 1]);
            }
        }
    } else {
        assert(l == b + "Gate"@);
        assert forall|i: int| 0 <= i < l.len() implies is_ascii_alnum(#[trigger] l[i]) by {
            if i < b.len() {
                assert(l[i] == b[i]);
            } else {
                assert(l[i] == "Gate"@[i - b.len()]);
            }
        }
    }
}

/// Why start-up cannot go on.
#[derive(Clone, Copy, Debug, PartialEq, Eq, Structural)]
pub enum StartupError {
    /// `NEXUS_HOST_NAME` is set but `NEXUS_HOST_URL` is not.
    MissingHostUrl,
}

/// A host to register in the registry on first boot.
pub struct HostRegistration {
    pub name: String,
    pub url: String,
    pub framework: String,
    pub remote_entry: String,
    pub exposed_module: String,
}

/// The value of an optional setting, or the default.
pub open spec fn or_default(v: Option<String>, d: Seq<char>) -> Seq<char> {
    match v {
        Some(s) => s@,
        None => d,
    }
}

fn value_or(v: &Option<String>, d: &str) -> (r: String)
    ensures
        r@ == or_default(*v, d@),
{
    match v {
        Some(s) => s.clone(),
        None => String::from_str(d),
    }
}

impl Env {
    /// The host to register, when `NEXUS_HOST_NAME` is set; its URL is then
    /// required, the other settings default to `angular`,
    /// `/host/remoteEntry.json` and `./AppShell`.
    pub fn host_registration(&self) -> (r: Result<Option<HostRegistration>, StartupError>)
        ensures
            self.host_name is None ==> r is Ok && r->Ok_0 is None,
            self.host_name is Some && self.host_url is None ==> r == Err::<
                Option<HostRegistration>,
                StartupError,
            >(StartupError::MissingHostUrl),
            self.host_name is Some && self.host_url is Some ==> r is Ok && r->Ok_0 is Some && {
                let h = r->Ok_0->Some_0;
                &&& h.name@ == self.host_name->Some_0@
                &&& h.url@ == self.host_url->Some_0@
                &&& h.framework@ == or_default(self.host_framework, "angular"@)
                &&& h.remote_entry@ == or_default(self.host_remote_entry, "/host/remoteEntry.json"@)
                &&& h.exposed_module@ == or_default(self.host_exposed_module, "./AppShell"@)
            },
    {
        match &self.host_name {
            None => Ok(None),
            Some(name) => match &self.host_url {
                None => Err(StartupError::MissingHostUrl),
                Some(url) => Ok(
                    Some(
                        HostRegistration {
                            name: name.clone(),
                            url: url.clone(),
                            framework: value_or(&self.host_framework, "angular"),
                            remote_entry: value_or(&self.host_remote_entry, "/host/remoteEntry.json"),
                            exposed_module: value_or(&self.host_exposed_module, "./AppShell"),
                        },
                    ),
                ),
            },
        }
    }

    /// The label of a gate to create: the configured one, else derived.
    pub fn gate_label_to_register(&self) -> (r: String)
        ensures
            r@ == match self.gate_label {
                Some(l) => l@,
                None => gate_label_for(
                    match self.host_name {
                        Some(n) => Some(n@),
                        None => None,
                    },
                    self.gate_name@,
                ),
            },
    {
        match &self.gate_label {
            Some(l) => l.clone(),
            None => match &self.host_name {
                Some(n) => derive_gate_label(Some(n.as_str()), self.gate_name.as_str()),
                None => derive_gate_label(None, self.gate_name.as_str()),
            },
        }
    }
}

/// The host fields of the state for an optional host: its values, or all
/// empty with the default framework.
pub open spec fn has_host_fields(s: GatewayState, host: Option<RegistryHost>) -> bool {
    match host {
        Some(h) => {
            &&& s.host_id@ == h.id@
            &&& s.host_name@ == h.name@
            &&& s.host_url@ == h.url@
            &&& s.host_framework == h.framework
            &&& s.host_remote_entry@ == h.remote_entry@
            &&& s.host_exposed_module@ == h.exposed_module@
        },
        None => {
            &&& s.host_id@.len() == 0
            &&& s.host_name@.len() == 0
            &&& s.host_url@.len() == 0
            &&& s.host_framework == HostFramework::Auto
            &&& s.host_remote_entry@.len() == 0
            &&& s.host_exposed_module@.len() == 0
        },
    }
}

/// The gateway configuration made of the registry's answer: its fields,
/// with the default protection settings when it gives none.
pub fn gateway_config_from(reg: RegistryGatewayConfig) -> (r: GatewayConfig)
    ensures
        r.cors_origins == reg.cors_origins,
        r.custom_headers == reg.custom_headers,
        r.health_check_path == reg.health_check_path,
        r.public_url == reg.public_url,
        match reg.protection {
            Some(p) => r.protection == p,
            None => is_default_protection(r.protection),
        },
{
    let protection = match reg.protection {
        Some(p) => p,
        None => ProtectionConfig::default(),
    };
    GatewayConfig {
        cors_origins: reg.cors_origins,
        custom_headers: reg.custom_headers,
        health_check_path: reg.health_check_path,
        public_url: reg.public_url,
        protection,
    }
}

/// The gateway state after start-up: its gate's id, the configured gate
/// name, registry URL and token, the host's fields, the configuration, and
/// not yet connected to the registry.
pub fn assemble_state(env: &Env, gate: RegistryGate, reg: RegistryGatewayConfig) -> (r: GatewayState)
    ensures
        r.gate_id@ == gate.id@,
        r.gate_name@ == env.gate_name@,
        has_host_fields(r, gate.host),
        r.gateway_config.cors_origins == reg.cors_origins,
        r.gateway_config.custom_headers == reg.custom_headers,
        r.gateway_config.health_check_path == reg.health_check_path,
        r.gateway_config.public_url == reg.public_url,
        match reg.protection {
            Some(p) => r.gateway_config.protection == p,
            None => is_default_protection(r.gateway_config.protection),
        },
        r.registry_url@ == env.registry_url@,
        r.nexus_token@ == env.nexus_token@,
        !r.registry_connected,
{
    let gateway_config = gateway_config_from(reg);
    let mut state = GatewayState {
        gate_id: gate.id,
        gate_name: env.gate_name.clone(),
        host_id: String::new(),
        host_name: String::new(),
        host_url: String::new(),
        host_framework: HostFramework::Auto,
        host_remote_entry: String::new(),
        host_exposed_module: String::new(),
        gateway_config,
        registry_url: env.registry_url.clone(),
        nexus_token: env.nexus_token.clone(),
        registry_connected: false,
    };
    state.set_host(gate.host);
    state
}

impl GatewayState {
    /// Takes the host fields from `host`, or empties them when there is no
    /// host; every other field is unchanged.
    pub fn set_host(&mut self, host: Option<RegistryHost>)
        ensures
            has_host_fields(*final(self), host),
            final(self).gate_id == old(self).gate_id,
            final(self).gate_name == old(self).gate_name,
            final(self).gateway_config == old(self).gateway_config,
            final(self).registry_url == old(self).registry_url,
            final(self).nexus_token == old(self).nexus_token,
            final(self).registry_connected == old(self).registry_connected,
    {
        match host {
            Some(h) => {
                self.host_id = h.id;
                self.host_name = h.name;
                self.host_url = h.url;
                self.host_framework = h.framework;
                self.host_remote_entry = h.remote_entry;
                self.host_exposed_module = h.exposed_module;
            },
            None => {
                self.host_id = String::new();
                self.host_name = String::new();
                self.host_url = String::new();
                self.host_framework = HostFramework::Auto;
                self.host_remote_entry = String::new();
                self.host_exposed_module = String::new();
            },
        }
    }
}

} // verus!
