//! Per-client protection bookkeeping: bans, violation counts that lead to
//! automatic bans, and the HTTP and WebSocket connection slots.
//!
//! Times are nanoseconds on a monotonic clock chosen by the caller.
use vstd::prelude::*;
use vstd::string::*;
use dashmap::DashMap;
use crate::ip::IpAddress;
use crate::state::ProtectionConfig;
use crate::text::str_eq;

verus! {

/// Open connections of one client.
#[derive(Clone, Copy, Debug)]
pub struct ConnectionCount {
    pub active_http: u32,
    pub active_ws: u32,
}

impl Default for ConnectionCount {
    fn default() -> (r: ConnectionCount)
        ensures
            r == zero_connections(),
    {
        ConnectionCount { active_http: 0, active_ws: 0 }
    }
}

/// A ban of one client.
#[derive(Clone, Debug)]
pub struct BanEntry {
    pub banned_until: u128,
    pub reason: String,
    pub violation_count: u32,
}

impl View for BanEntry {
    type V = (u128, Seq<char>, u32);

    open spec fn view(&self) -> (u128, Seq<char>, u32) {
        (self.banned_until, self.reason@, self.violation_count)
    }
}

/// Violations recorded for one client.
#[derive(Clone, Copy, Debug)]
pub struct ViolationRecord {
    pub count: u32,
    pub first_seen: u128,
}

pub type ConnMap = Map<IpAddress, ConnectionCount>;

pub type BanMap = Map<IpAddress, (u128, Seq<char>, u32)>;

pub type ViolationMap = Map<IpAddress, ViolationRecord>;

/// The connection counts held by a connection map.
pub uninterp spec fn connection_entries(m: DashMap<IpAddress, ConnectionCount>) -> ConnMap;

/// The bans held by a ban map, each as (banned until, reason, violations).
pub uninterp spec fn ban_entries(m: DashMap<IpAddress, BanEntry>) -> BanMap;

/// The violation records held by a violation map.
pub uninterp spec fn violation_entries(m: DashMap<IpAddress, ViolationRecord>) -> ViolationMap;

pub open spec fn no_connections() -> ConnMap {
    Map::empty()
}

pub open spec fn no_bans() -> BanMap {
    Map::empty()
}

pub open spec fn no_violations() -> ViolationMap {
    Map::empty()
}

/// `DashMap::new` for connection counts: no entries.
#[verifier::external_body]
fn conns_new() -> (m: DashMap<IpAddress, ConnectionCount>)
    ensures
        connection_entries(m) == no_connections(),
{
    DashMap::new()
}

/// `DashMap::get` for connection counts, the value copied out.
#[verifier::external_body]
fn conns_get(m: &DashMap<IpAddress, ConnectionCount>, ip: IpAddress) -> (r: Option<ConnectionCount>)
    ensures
        r == (if connection_entries(*m).contains_key(ip) {
            Some(connection_entries(*m)[ip])
        } else {
            None
        }),
{
    match m.get(&ip) {
        Some(e) => Some(*e.value()),
        None => None,
    }
}

/// `DashMap::insert` for connection counts.
#[verifier::external_body]
fn conns_insert(m: &mut DashMap<IpAddress, ConnectionCount>, ip: IpAddress, c: ConnectionCount)
    ensures
        connection_entries(*final(m)) == connection_entries(*old(m)).insert(ip, c),
{
    m.insert(ip, c);
}

/// `DashMap::new` for bans: no entries.
#[verifier::external_body]
fn bans_new() -> (m: DashMap<IpAddress, BanEntry>)
    ensures
        ban_entries(m) == no_bans(),
{
    DashMap::new()
}

/// `DashMap::get` for bans, the entry's fields copied out.
#[verifier::external_body]
fn bans_get(m: &DashMap<IpAddress, BanEntry>, ip: IpAddress) -> (r: Option<BanEntry>)
    ensures
        match r {
            Some(e) => ban_entries(*m).contains_key(ip) && ban_entries(*m)[ip] == e@,
            None => !ban_entries(*m).contains_key(ip),
        },
{
    match m.get(&ip) {
        Some(e) => Some(
            BanEntry {
                banned_until: e.value().banned_until,
                reason: e.value().reason.clone(),
                violation_count: e.value().violation_count,
            },
        ),
        None => None,
    }
}

/// `DashMap::insert` for bans.
#[verifier::external_body]
fn bans_insert(m: &mut DashMap<IpAddress, BanEntry>, ip: IpAddress, e: BanEntry)
    ensures
        ban_entries(*final(m)) == ban_entries(*old(m)).insert(ip, e@),
{
    m.insert(ip, e);
}

/// `DashMap::remove` for bans; tells whether there was an entry.
#[verifier::external_body]
fn bans_remove(m: &mut DashMap<IpAddress, BanEntry>, ip: IpAddress) -> (r: bool)
    ensures
        r == ban_entries(*old(m)).contains_key(ip),
        ban_entries(*final(m)) == ban_entries(*old(m)).remove(ip),
{
    m.remove(&ip).is_some()
}

/// `DashMap::clear` for bans.
#[verifier::external_body]
fn bans_clear(m: &mut DashMap<IpAddress, BanEntry>)
    ensures
        ban_entries(*final(m)) == no_bans(),
{
    m.clear();
}

/// `DashMap::len` for bans.
#[verifier::external_body]
fn bans_len(m: &DashMap<IpAddress, BanEntry>) -> (r: usize)
    ensures
        r as nat == ban_entries(*m).dom().len(),
{
    m.len()
}

/// `v` lists every ban of `b` exactly once, in any order.
pub open spec fn lists_bans(b: BanMap, v: Seq<(IpAddress, BanEntry)>) -> bool {
    &&& forall|i: int| 0 <= i < v.len() ==> #[trigger] b.contains_key(v[i].0) && b[v[i].0] == v[i].1@
    &&& forall|k: IpAddress| #[trigger] b.contains_key(k) ==> exists|i: int| 0 <= i < v.len() && #[trigger] v[i].0 == k
    &&& forall|i: int, j: int| 0 <= i < j < v.len() ==> v[i].0 != v[j].0
}

/// `DashMap::iter` for bans, each entry copied out, in an order that the
/// map does not fix.
#[verifier::external_body]
fn bans_snapshot(m: &DashMap<IpAddress, BanEntry>) -> (v: Vec<(IpAddress, BanEntry)>)
    ensures
        lists_bans(ban_entries(*m), v@),
{
    m.iter().map(|e| (*e.key(), e.value().clone())).collect()
}

/// `DashMap::new` for violation records: no entries.
#[verifier::external_body]
fn violations_new() -> (m: DashMap<IpAddress, ViolationRecord>)
    ensures
        violation_entries(m) == no_violations(),
{
    DashMap::new()
}

/// `DashMap::get` for violation records, the value copied out.
#[verifier::external_body]
fn violations_get(m: &DashMap<IpAddress, ViolationRecord>, ip: IpAddress) -> (r: Option<ViolationRecord>)
    ensures
        r == (if violation_entries(*m).contains_key(ip) {
            Some(violation_entries(*m)[ip])
        } else {
            None
        }),
{
    match m.get(&ip) {
        Some(e) => Some(*e.value()),
        None => None,
    }
}

/// `DashMap::insert` for violation records.
#[verifier::external_body]
fn violations_insert(m: &mut DashMap<IpAddress, ViolationRecord>, ip: IpAddress, r: ViolationRecord)
    ensures
        violation_entries(*final(m)) == violation_entries(*old(m)).insert(ip, r),
{
    m.insert(ip, r);
}

/// `v` lists every violation record of `m` exactly once, in any order.
pub open spec fn lists_violations(m: ViolationMap, v: Seq<(IpAddress, ViolationRecord)>) -> bool {
    &&& forall|i: int| 0 <= i < v.len() ==> #[trigger] m.contains_key(v[i].0) && m[v[i].0] == v[i].1
    &&& forall|k: IpAddress| #[trigger] m.contains_key(k) ==> exists|i: int| 0 <= i < v.len() && #[trigger] v[i].0 == k
    &&& forall|i: int, j: int| 0 <= i < j < v.len() ==> v[i].0 != v[j].0
}

/// `DashMap::iter` for violation records, each entry copied out, in an
/// order that the map does not fix.
#[verifier::external_body]
fn violations_snapshot(m: &DashMap<IpAddress, ViolationRecord>) -> (v: Vec<(IpAddress, ViolationRecord)>)
    ensures
        lists_violations(violation_entries(*m), v@),
{
    m.iter().map(|e| (*e.key(), *e.value())).collect()
}

pub open spec fn zero_connections() -> ConnectionCount {
    ConnectionCount { active_http: 0, active_ws: 0 }
}

/// The connection counts of a client, zero when it has none.
pub open spec fn connections_of(m: ConnMap, ip: IpAddress) -> ConnectionCount {
    if m.contains_key(ip) {
        m[ip]
    } else {
        zero_connections()
    }
}

/// The violations recorded for a client, zero when none.
pub open spec fn violations_of(m: ViolationMap, ip: IpAddress) -> u32 {
    if m.contains_key(ip) {
        m[ip].count
    } else {
        0
    }
}

pub open spec fn nanos_per_second() -> int {
    1_000_000_000
}

/// The end of a ban that starts at `now` and lasts `secs` seconds.
pub open spec fn ban_end(now: u128, secs: u64) -> u128 {
    (now + secs * nanos_per_second()) as u128
}

/// Whether a ban end can be represented for a ban of `secs` seconds.
pub open spec fn ban_end_fits(now: u128, secs: u64) -> bool {
    now + secs * nanos_per_second() <= u128::MAX
}

/// Whole seconds left until `until`, counted from `now`.
pub open spec fn seconds_left(until: u128, now: u128) -> u64 {
    let s = (until - now) / nanos_per_second();
    if s > u64::MAX {
        u64::MAX
    } else {
        s as u64
    }
}

/// Whether `b` holds a ban of `ip` that has not ended at `now`.
pub open spec fn is_banned_at(b: BanMap, ip: IpAddress, now: u128) -> bool {
    b.contains_key(ip) && b[ip].0 > now
}

/// The violation records after one more violation of `ip` at `now`.
pub open spec fn with_violation(v: ViolationMap, ip: IpAddress, now: u128) -> ViolationMap {
    v.insert(
        ip,
        ViolationRecord {
            count: (violations_of(v, ip) + 1) as u32,
            first_seen: if v.contains_key(ip) {
                v[ip].first_seen
            } else {
                now
            },
        },
    )
}

/// Whether one more violation of `ip` reaches the ban threshold.
pub open spec fn reaches_threshold(v: ViolationMap, ip: IpAddress, cfg: ProtectionConfig) -> bool {
    violations_of(v, ip) + 1 >= cfg.ban_threshold_violations
}

/// The bans after one more violation of `ip` at `now`: a ban for the
/// configured duration once the threshold is reached.
pub open spec fn bans_after_violation(
    v: ViolationMap,
    b: BanMap,
    ip: IpAddress,
    reason: Seq<char>,
    cfg: ProtectionConfig,
    now: u128,
) -> BanMap {
    if reaches_threshold(v, ip, cfg) {
        b.insert(ip, (ban_end(now, cfg.ban_duration_seconds), reason, (violations_of(v, ip) + 1) as u32))
    } else {
        b
    }
}

/// The counter after one more blocked request; it wraps at the top.
pub open spec fn bumped(n: u64) -> u64 {
    if n == u64::MAX {
        0
    } else {
        (n + 1) as u64
    }
}

/// A count after one is taken away; it wraps at zero.
pub open spec fn decremented(n: u32) -> u32 {
    if n == 0 {
        u32::MAX
    } else {
        (n - 1) as u32
    }
}

/// Whether a client may open one more WebSocket under `limit`.
pub open spec fn ws_slot_free(c: ConnMap, ip: IpAddress, limit: u32) -> bool {
    connections_of(c, ip).active_ws + 1 <= limit
}

/// The connection counts after a WebSocket slot is asked for: one more
/// when free; the client gets an entry either way.
pub open spec fn after_ws_acquire(c: ConnMap, ip: IpAddress, limit: u32) -> ConnMap {
    let x = connections_of(c, ip);
    c.insert(
        ip,
        if ws_slot_free(c, ip, limit) {
            ConnectionCount { active_ws: (x.active_ws + 1) as u32, ..x }
        } else {
            x
        },
    )
}

/// The connection counts after a WebSocket slot is given back.
pub open spec fn after_ws_release(c: ConnMap, ip: IpAddress) -> ConnMap {
    if c.contains_key(ip) {
        c.insert(ip, ConnectionCount { active_ws: decremented(c[ip].active_ws), ..c[ip] })
    } else {
        c
    }
}

/// The connection counts after an HTTP slot is given back.
pub open spec fn after_http_release(c: ConnMap, ip: IpAddress) -> ConnMap {
    if c.contains_key(ip) {
        c.insert(ip, ConnectionCount { active_http: decremented(c[ip].active_http), ..c[ip] })
    } else {
        c
    }
}

/// Why a request was turned away, or that it was let in.
#[derive(Debug)]
pub enum Admission {
    /// The client is banned for `retry_after_secs` more seconds.
    Banned { retry_after_secs: u64, reason: String },
    /// The request headers exceed the allowed size.
    HeadersTooLarge { newly_banned: bool },
    /// The declared body length exceeds the allowed size.
    PayloadTooLarge { max_bytes: u64, newly_banned: bool },
    /// The client already holds as many connections as allowed.
    TooManyConnections { limit: u32, newly_banned: bool },
    /// The request may go on; it holds one connection slot.
    Admitted,
}

/// A ban that has not ended, as reported by the status endpoint.
#[derive(Clone, Debug)]
pub struct ActiveBan {
    pub ip: IpAddress,
    pub remaining_seconds: u64,
    pub reason: String,
    pub violation_count: u32,
}

/// A client with violations, as reported by the status endpoint.
#[derive(Clone, Copy, Debug)]
pub struct OffenderReport {
    pub ip: IpAddress,
    pub violation_count: u32,
    pub active_connections_http: u32,
    pub active_connections_ws: u32,
    pub is_banned: bool,
}

/// How an admitted request ended.
#[derive(Clone, Copy, Debug, PartialEq, Eq, Structural)]
pub enum RequestEnd {
    /// It was handled and answered (whatever the answer).
    Answered,
    /// The rate limiter turned it away.
    RateLimited,
    /// It did not finish within the request time limit.
    TimedOut,
}

/// The connection counts after a request is admitted: the client holds one
/// more HTTP slot.
pub open spec fn after_admission(c: ConnMap, ip: IpAddress) -> ConnMap {
    c.insert(ip, ConnectionCount { active_http: (connections_of(c, ip).active_http + 1) as u32, ..connections_of(c, ip) })
}

/// The most clients the status report lists by violations.
pub const TOP_OFFENDERS: usize = 10;

/// `e` reports the unexpired ban of its client correctly.
pub open spec fn reports_ban(b: BanMap, e: ActiveBan, now: u128) -> bool {
    &&& is_banned_at(b, e.ip, now)
    &&& e.remaining_seconds == seconds_left(b[e.ip].0, now)
    &&& e.reason@ == b[e.ip].1
    &&& e.violation_count == b[e.ip].2
}

/// `e` reports its client's violations, connections and ban correctly.
pub open spec fn reports_offender(
    v: ViolationMap,
    c: ConnMap,
    b: BanMap,
    e: OffenderReport,
    now: u128,
) -> bool {
    &&& v.contains_key(e.ip)
    &&& e.violation_count == v[e.ip].count
    &&& e.active_connections_http == connections_of(c, e.ip).active_http
    &&& e.active_connections_ws == connections_of(c, e.ip).active_ws
    &&& e.is_banned == is_banned_at(b, e.ip, now)
}

/// Per-client protection state.
pub struct ProtectionState {
    connections: DashMap<IpAddress, ConnectionCount>,
    bans: DashMap<IpAddress, BanEntry>,
    violations: DashMap<IpAddress, ViolationRecord>,
    requests_blocked: u64,
}

impl ProtectionState {
    pub closed spec fn conns(&self) -> ConnMap {
        connection_entries(self.connections)
    }

    pub closed spec fn bans(&self) -> BanMap {
        ban_entries(self.bans)
    }

    pub closed spec fn violations(&self) -> ViolationMap {
        violation_entries(self.violations)
    }

    pub closed spec fn blocked(&self) -> u64 {
        self.requests_blocked
    }

    /// Whether one more violation of `ip` at `now` can be counted and its
    /// ban end represented.
    pub open spec fn can_record_violation(&self, ip: IpAddress, cfg: ProtectionConfig, now: u128) -> bool {
        &&& violations_of(self.violations(), ip) < u32::MAX
        &&& ban_end_fits(now, cfg.ban_duration_seconds)
    }

    /// A state with no connections, bans or violations.
    pub fn new() -> (r: ProtectionState)
        ensures
            r.conns() == no_connections(),
            r.bans() == no_bans(),
            r.violations() == no_violations(),
            r.blocked() == 0,
    {
        ProtectionState {
            connections: conns_new(),
            bans: bans_new(),
            violations: violations_new(),
            requests_blocked: 0,
        }
    }

    /// The number of requests blocked so far.
    pub fn requests_blocked(&self) -> (r: u64)
        ensures
            r == self.blocked(),
    {
        self.requests_blocked
    }

    /// Open connections of a client.
    pub fn connection_count(&self, ip: IpAddress) -> (r: ConnectionCount)
        ensures
            r == connections_of(self.conns(), ip),
    {
        match conns_get(&self.connections, ip) {
            Some(c) => c,
            None => ConnectionCount { active_http: 0, active_ws: 0 },
        }
    }

    /// Violations recorded for a client.
    pub fn violation_count(&self, ip: IpAddress) -> (r: u32)
        ensures
            r == violations_of(self.violations(), ip),
    {
        match violations_get(&self.violations, ip) {
            Some(v) => v.count,
            None => 0,
        }
    }

    /// The number of bans held, ended or not.
    pub fn ban_count(&self) -> (r: usize)
        ensures
            r as nat == self.bans().dom().len(),
    {
        bans_len(&self.bans)
    }

    /// Whether a ban of `ip` is held, ended or not.
    pub fn has_ban(&self, ip: IpAddress) -> (r: bool)
        ensures
            r == self.bans().contains_key(ip),
    {
        bans_get(&self.bans, ip).is_some()
    }

    /// Turns the client away while its ban lasts, with the whole seconds
    /// left and the reason; otherwise drops any ended ban and lets it pass.
    pub fn check_ban(&mut self, ip: IpAddress, now: u128) -> (r: Result<(), (u64, String)>)
        ensures
            final(self).conns() == old(self).conns(),
            final(self).violations() == old(self).violations(),
            final(self).blocked() == old(self).blocked(),
            is_banned_at(old(self).bans(), ip, now) ==> {
                &&& r is Err
                &&& r->Err_0.0 == seconds_left(old(self).bans()[ip].0, now)
                &&& r->Err_0.1@ == old(self).bans()[ip].1
                &&& final(self).bans() == old(self).bans()
            },
            !is_banned_at(old(self).bans(), ip, now) ==> {
                &&& r is Ok
                &&& final(self).bans() == old(self).bans().remove(ip)
            },
    {
        if let Some(entry) = bans_get(&self.bans, ip) {
            if entry.banned_until > now {
                let left: u128 = (entry.banned_until - now) / 1_000_000_000;
                let secs: u64 = if left > u64::MAX as u128 {
                    u64::MAX
                } else {
                    left as u64
                };
                return Err((secs, entry.reason));
            }
        }
        bans_remove(&mut self.bans, ip);
        Ok(())
    }

    /// Whole seconds left of a ban that has not ended; `None` otherwise.
    pub fn ban_remaining_secs(&self, ip: IpAddress, now: u128) -> (r: Option<u64>)
        ensures
            r == (if is_banned_at(self.bans(), ip, now) {
                Some(seconds_left(self.bans()[ip].0, now))
            } else {
                None
            }),
    {
        match bans_get(&self.bans, ip) {
            Some(e) => {
                if e.banned_until > now {
                    let left: u128 = (e.banned_until - now) / 1_000_000_000;
                    if left > u64::MAX as u128 {
                        Some(u64::MAX)
                    } else {
                        Some(left as u64)
                    }
                } else {
                    None
                }
            },
            None => None,
        }
    }

    /// Counts one violation of `ip`; once the count reaches the threshold
    /// the client is banned for the configured duration. Tells whether this
    /// violation banned the client.
    pub fn record_violation(&mut self, ip: IpAddress, reason: &str, cfg: &ProtectionConfig, now: u128) -> (newly_banned: bool)
        requires
            old(self).can_record_violation(ip, *cfg, now),
        ensures
            newly_banned == reaches_threshold(old(self).violations(), ip, *cfg),
            final(self).violations() == with_violation(old(self).violations(), ip, now),
            final(self).bans() == bans_after_violation(
                old(self).violations(),
                old(self).bans(),
                ip,
                reason@,
                *cfg,
                now,
            ),
            final(self).conns() == old(self).conns(),
            final(self).blocked() == old(self).blocked(),
            newly_banned == (violations_of(old(self).violations(), ip) + 1 >= cfg.ban_threshold_violations),
            newly_banned ==> final(self).bans().contains_key(ip) && final(self).bans()[ip] == (
                (now + cfg.ban_duration_seconds * 1_000_000_000) as u128,
                reason@,
                (violations_of(old(self).violations(), ip) + 1) as u32,
            ),
            !newly_banned ==> final(self).bans() == old(self).bans(),
            final(self).violations().contains_key(ip),
            final(self).violations()[ip].count == violations_of(old(self).violations(), ip) + 1,
    {
        let rec = match violations_get(&self.violations, ip) {
            Some(r) => r,
            None => ViolationRecord { count: 0, first_seen: now },
        };
        let count = rec.count + 1;
        violations_insert(&mut self.violations, ip, ViolationRecord { count, first_seen: rec.first_seen });
        if count >= cfg.ban_threshold_violations {
            let until: u128 = now + (cfg.ban_duration_seconds as u128) * 1_000_000_000;
            bans_insert(
                &mut self.bans,
                ip,
                BanEntry { banned_until: until, reason: String::from_str(reason), violation_count: count },
            );
            true
        } else {
            false
        }
    }

    /// Takes a WebSocket slot for the client when fewer than `limit` are
    /// open. The client gets an entry either way.
    pub fn try_acquire_ws(&mut self, ip: IpAddress, limit: u32) -> (r: bool)
        requires
            connections_of(old(self).conns(), ip).active_ws < u32::MAX,
        ensures
            r == ws_slot_free(old(self).conns(), ip, limit),
            final(self).conns() == after_ws_acquire(old(self).conns(), ip, limit),
            final(self).bans() == old(self).bans(),
            final(self).violations() == old(self).violations(),
            final(self).blocked() == old(self).blocked(),
    {
        let c = self.connection_count(ip);
        if c.active_ws + 1 > limit {
            conns_insert(&mut self.connections, ip, c);
            false
        } else {
            conns_insert(&mut self.connections, ip, ConnectionCount { active_ws: c.active_ws + 1, ..c });
            true
        }
    }

    /// Gives back a WebSocket slot of a client that has an entry.
    pub fn release_ws(&mut self, ip: IpAddress)
        ensures
            final(self).conns() == after_ws_release(old(self).conns(), ip),
            final(self).bans() == old(self).bans(),
            final(self).violations() == old(self).violations(),
            final(self).blocked() == old(self).blocked(),
    {
        if let Some(c) = conns_get(&self.connections, ip) {
            let ws = if c.active_ws == 0 {
                u32::MAX
            } else {
                c.active_ws - 1
            };
            conns_insert(&mut self.connections, ip, ConnectionCount { active_ws: ws, ..c });
        }
    }

    /// Gives back an HTTP slot of a client that has an entry.
    pub fn release_http(&mut self, ip: IpAddress)
        ensures
            final(self).conns() == after_http_release(old(self).conns(), ip),
            final(self).bans() == old(self).bans(),
            final(self).violations() == old(self).violations(),
            final(self).blocked() == old(self).blocked(),
    {
        if let Some(c) = conns_get(&self.connections, ip) {
            let http = if c.active_http == 0 {
                u32::MAX
            } else {
                c.active_http - 1
            };
            conns_insert(&mut self.connections, ip, ConnectionCount { active_http: http, ..c });
        }
    }

    fn count_blocked(&mut self)
        ensures
            final(self).blocked() == bumped(old(self).blocked()),
            final(self).conns() == old(self).conns(),
            final(self).bans() == old(self).bans(),
            final(self).violations() == old(self).violations(),
    {
        self.requests_blocked = if self.requests_blocked == u64::MAX {
            0
        } else {
            self.requests_blocked + 1
        };
    }

    /// A request turned away by the rate limiter: its HTTP slot is given
    /// back and it counts as blocked.
    pub fn reject_rate_limited(&mut self, ip: IpAddress)
        ensures
            final(self).conns() == after_http_release(old(self).conns(), ip),
            final(self).blocked() == bumped(old(self).blocked()),
            final(self).bans() == old(self).bans(),
            final(self).violations() == old(self).violations(),
    {
        self.release_http(ip);
        self.count_blocked();
    }

    /// A request that ran out of time: a `request_timeout` violation, and it
    /// counts as blocked. Tells whether the violation banned the client.
    pub fn record_timeout(&mut self, ip: IpAddress, cfg: &ProtectionConfig, now: u128) -> (newly_banned: bool)
        requires
            old(self).can_record_violation(ip, *cfg, now),
        ensures
            newly_banned == reaches_threshold(old(self).violations(), ip, *cfg),
            final(self).violations() == with_violation(old(self).violations(), ip, now),
            final(self).bans() == bans_after_violation(
                old(self).violations(),
                old(self).bans(),
                ip,
                "request_timeout"@,
                *cfg,
                now,
            ),
            final(self).conns() == old(self).conns(),
            final(self).blocked() == bumped(old(self).blocked()),
    {
        let b = self.record_violation(ip, "request_timeout", cfg, now);
        self.count_blocked();
        b
    }

    /// Bans a client by hand for the requested seconds, or the configured
    /// duration when none is requested; gives the duration used.
    pub fn ban_manual(&mut self, ip: IpAddress, requested_secs: Option<u64>, default_secs: u64, now: u128) -> (secs: u64)
        requires
            ban_end_fits(
                now,
                match requested_secs {
                    Some(s) => s,
                    None => default_secs,
                },
            ),
        ensures
            secs == match requested_secs {
                Some(s) => s,
                None => default_secs,
            },
            final(self).bans() == old(self).bans().insert(ip, (ban_end(now, secs), "manual ban"@, 0u32)),
            final(self).conns() == old(self).conns(),
            final(self).violations() == old(self).violations(),
            final(self).blocked() == old(self).blocked(),
    {
        let secs = match requested_secs {
            Some(s) => s,
            None => default_secs,
        };
        let until: u128 = now + (secs as u128) * 1_000_000_000;
        bans_insert(
            &mut self.bans,
            ip,
            BanEntry { banned_until: until, reason: String::from_str("manual ban"), violation_count: 0 },
        );
        secs
    }

    /// Records a ban as given, replacing any ban of that client.
    pub fn insert_ban(&mut self, ip: IpAddress, entry: BanEntry)
        ensures
            final(self).bans() == old(self).bans().insert(ip, entry@),
            final(self).conns() == old(self).conns(),
            final(self).violations() == old(self).violations(),
            final(self).blocked() == old(self).blocked(),
    {
        bans_insert(&mut self.bans, ip, entry);
    }

    /// Lifts the ban of a client; tells whether there was one.
    pub fn unban(&mut self, ip: IpAddress) -> (removed: bool)
        ensures
            removed == old(self).bans().contains_key(ip),
            final(self).bans() == old(self).bans().remove(ip),
            final(self).conns() == old(self).conns(),
            final(self).violations() == old(self).violations(),
            final(self).blocked() == old(self).blocked(),
    {
        bans_remove(&mut self.bans, ip)
    }

    /// Closes an admitted request: its HTTP slot is given back in every
    /// case; a request turned away by the rate limiter counts as blocked; a
    /// request that ran out of time is a `request_timeout` violation and
    /// counts as blocked. Tells whether that violation banned the client.
    pub fn finish_request(&mut self, ip: IpAddress, end: RequestEnd, cfg: &ProtectionConfig, now: u128) -> (newly_banned: bool)
        requires
            end is TimedOut ==> old(self).can_record_violation(ip, *cfg, now),
        ensures
            final(self).conns() == after_http_release(old(self).conns(), ip),
            match end {
                RequestEnd::Answered => {
                    &&& !newly_banned
                    &&& final(self).bans() == old(self).bans()
                    &&& final(self).violations() == old(self).violations()
                    &&& final(self).blocked() == old(self).blocked()
                },
                RequestEnd::RateLimited => {
                    &&& !newly_banned
                    &&& final(self).bans() == old(self).bans()
                    &&& final(self).violations() == old(self).violations()
                    &&& final(self).blocked() == bumped(old(self).blocked())
                },
                RequestEnd::TimedOut => {
                    &&& newly_banned == reaches_threshold(old(self).violations(), ip, *cfg)
                    &&& final(self).violations() == with_violation(old(self).violations(), ip, now)
                    &&& final(self).bans() == bans_after_violation(
                        old(self).violations(),
                        old(self).bans(),
                        ip,
                        "request_timeout"@,
                        *cfg,
                        now,
                    )
                    &&& final(self).blocked() == bumped(old(self).blocked())
                },
            },
    {
        match end {
            RequestEnd::Answered => {
                self.release_http(ip);
                false
            },
            RequestEnd::RateLimited => {
                self.reject_rate_limited(ip);
                false
            },
            RequestEnd::TimedOut => {
                self.release_http(ip);
                self.record_timeout(ip, cfg, now)
            },
        }
    }

    /// The admission layers run before a request is handled, in order: an
    /// unexpired ban; headers larger than allowed; a declared body longer
    /// than allowed; too many open HTTP connections. The first that applies
    /// turns the request away, counts it as blocked, and (except a ban)
    /// records a violation. Otherwise the request takes an HTTP slot. Any
    /// ended ban of the client is dropped on the way.
    pub fn screen_request(
        &mut self,
        ip: IpAddress,
        header_bytes: u64,
        content_length: Option<u64>,
        cfg: &ProtectionConfig,
        now: u128,
    ) -> (r: Admission)
        requires
            old(self).can_record_violation(ip, *cfg, now),
            connections_of(old(self).conns(), ip).active_http < u32::MAX,
        ensures
            ({
                let o_b = old(self).bans();
                let o_v = old(self).violations();
                let o_c = old(self).conns();
                let b1 = o_b.remove(ip);
                let c = connections_of(o_c, ip);
                if is_banned_at(o_b, ip, now) {
                    &&& r is Banned
                    &&& r->retry_after_secs == seconds_left(o_b[ip].0, now)
                    &&& r->reason@ == o_b[ip].1
                    &&& final(self).bans() == o_b
                    &&& final(self).violations() == o_v
                    &&& final(self).conns() == o_c
                    &&& final(self).blocked() == bumped(old(self).blocked())
                } else if header_bytes > cfg.max_header_bytes {
                    &&& r is HeadersTooLarge
                    &&& r->HeadersTooLarge_newly_banned == reaches_threshold(o_v, ip, *cfg)
                    &&& final(self).violations() == with_violation(o_v, ip, now)
                    &&& final(self).bans() == bans_after_violation(o_v, b1, ip, "headers_too_large"@, *cfg, now)
                    &&& final(self).conns() == o_c
                    &&& final(self).blocked() == bumped(old(self).blocked())
                } else if content_length is Some && content_length->Some_0 > cfg.max_body_bytes {
                    &&& r is PayloadTooLarge
                    &&& r->max_bytes == cfg.max_body_bytes
                    &&& r->PayloadTooLarge_newly_banned == reaches_threshold(o_v, ip, *cfg)
                    &&& final(self).violations() == with_violation(o_v, ip, now)
                    &&& final(self).bans() == bans_after_violation(o_v, b1, ip, "payload_too_large"@, *cfg, now)
                    &&& final(self).conns() == o_c
                    &&& final(self).blocked() == bumped(old(self).blocked())
                } else if c.active_http + 1 > cfg.max_connections_per_ip {
                    &&& r is TooManyConnections
                    &&& r->limit == cfg.max_connections_per_ip
                    &&& r->TooManyConnections_newly_banned == reaches_threshold(o_v, ip, *cfg)
                    &&& final(self).violations() == with_violation(o_v, ip, now)
                    &&& final(self).bans() == bans_after_violation(
                        o_v,
                        b1,
                        ip,
                        "too_many_connections"@,
                        *cfg,
                        now,
                    )
                    &&& final(self).conns() == o_c.insert(ip, c)
                    &&& final(self).blocked() == bumped(old(self).blocked())
                } else {
                    &&& r is Admitted
                    &&& final(self).bans() == b1
                    &&& final(self).violations() == o_v
                    &&& final(self).conns() == after_admission(o_c, ip)
                    &&& final(self).blocked() == old(self).blocked()
                }
            }),
    {
        match self.check_ban(ip, now) {
            Err((secs, reason)) => {
                self.count_blocked();
                return Admission::Banned { retry_after_secs: secs, reason };
            },
            Ok(()) => {},
        }
        if header_bytes > cfg.max_header_bytes {
            let nb = self.record_violation(ip, "headers_too_large", cfg, now);
            self.count_blocked();
            return Admission::HeadersTooLarge { newly_banned: nb };
        }
        if let Some(cl) = content_length {
            if cl > cfg.max_body_bytes {
                let nb = self.record_violation(ip, "payload_too_large", cfg, now);
                self.count_blocked();
                return Admission::PayloadTooLarge { max_bytes: cfg.max_body_bytes, newly_banned: nb };
            }
        }
        let c = self.connection_count(ip);
        if c.active_http + 1 > cfg.max_connections_per_ip {
            conns_insert(&mut self.connections, ip, c);
            let nb = self.record_violation(ip, "too_many_connections", cfg, now);
            self.count_blocked();
            return Admission::TooManyConnections { limit: cfg.max_connections_per_ip, newly_banned: nb };
        }
        conns_insert(&mut self.connections, ip, ConnectionCount { active_http: c.active_http + 1, ..c });
        Admission::Admitted
    }

    /// The bans that have not ended at `now`, each once, in no fixed order.
    pub fn active_bans(&self, now: u128) -> (r: Vec<ActiveBan>)
        ensures
            forall|k: int| 0 <= k < r@.len() ==> reports_ban(self.bans(), #[trigger] r@[k], now),
            forall|ip: IpAddress|
                #[trigger] is_banned_at(self.bans(), ip, now) ==> exists|k: int|
                    0 <= k < r@.len() && #[trigger] r@[k].ip == ip,
            forall|k: int, l: int| 0 <= k < l < r@.len() ==> r@[k].ip != r@[l].ip,
    {
        let entries = bans_snapshot(&self.bans);
        let ghost b = self.bans();
        let mut r: Vec<ActiveBan> = Vec::new();
        let ghost mut src: Seq<int> = Seq::empty();
        for i in 0..entries.len()
            invariant
                b == self.bans(),
                lists_bans(b, entries@),
                src.len() == r@.len(),
                forall|k: int| 0 <= k < r@.len() ==> reports_ban(b, #[trigger] r@[k], now),
                forall|k: int|
                    0 <= k < r@.len() ==> 0 <= #[trigger] src[k] < i && entries@[src[k]].0 == r@[k].ip,
                forall|k: int, l: int| 0 <= k < l < r@.len() ==> src[k] < src[l],
                forall|j: int|
                    0 <= j < i && is_banned_at(b, #[trigger] entries@[j].0, now) ==> exists|k: int|
                        0 <= k < r@.len() && src[k] == j,
        {
            let (ip, e) = (entries[i].0, &entries[i].1);
            assert(b.contains_key(entries@[i as int].0));
            if e.banned_until > now {
                let left: u128 = (e.banned_until - now) / 1_000_000_000;
                let secs: u64 = if left > u64::MAX as u128 {
                    u64::MAX
                } else {
                    left as u64
                };
                let ghost old_src = src;
                r.push(
                    ActiveBan {
                        ip,
                        remaining_seconds: secs,
                        reason: e.reason.clone(),
                        violation_count: e.violation_count,
                    },
                );
                proof {
                    src = src.push(i as int);
                    assert forall|j: int|
                        0 <= j < i + 1 && is_banned_at(b, #[trigger] entries@[j].0, now) implies exists|k: int|
                        0 <= k < r@.len() && src[k] == j by {
                        if j == i {
                            assert(src[r@.len() - 1] == j);
                        } else {
                            let k = choose|k: int| 0 <= k < old_src.len() && old_src[k] == j;
                            assert(src[k] == j);
                        }
                    }
                }
            }
        }
        proof {
            assert forall|ip: IpAddress| #[trigger] is_banned_at(b, ip, now) implies exists|k: int|
                0 <= k < r@.len() && #[trigger] r@[k].ip == ip by {
                let j = choose|j: int| 0 <= j < entries@.len() && #[trigger] entries@[j].0 == ip;
                assert(is_banned_at(b, entries@[j].0, now));
                let k = choose|k: int| 0 <= k < r@.len() && src[k] == j;
                assert(r@[k].ip == ip);
            }
            assert forall|k: int, l: int| 0 <= k < l < r@.len() implies r@[k].ip != r@[l].ip by {
                assert(src[k] < src[l]);
                assert(entries@[src[k]].0 != entries@[src[l]].0);
            }
        }
        r
    }

    /// The report lines of every client with violations, in no fixed order.
    fn offender_lines(&self, now: u128) -> (r: Vec<OffenderReport>)
        ensures
            forall|k: int|
                0 <= k < r@.len() ==> reports_offender(
                    self.violations(),
                    self.conns(),
                    self.bans(),
                    #[trigger] r@[k],
                    now,
                ),
            forall|ip: IpAddress|
                #[trigger] self.violations().contains_key(ip) ==> exists|k: int|
                    0 <= k < r@.len() && #[trigger] r@[k].ip == ip,
            forall|k: int, l: int| 0 <= k < l < r@.len() ==> r@[k].ip != r@[l].ip,
    {
        let entries = violations_snapshot(&self.violations);
        let mut r: Vec<OffenderReport> = Vec::new();
        for i in 0..entries.len()
            invariant
                lists_violations(self.violations(), entries@),
                r@.len() == i,
                forall|k: int|
                    0 <= k < i ==> reports_offender(
                        self.violations(),
                        self.conns(),
                        self.bans(),
                        #[trigger] r@[k],
                        now,
                    ) && r@[k].ip == entries@[k].0,
        {
            let ip = entries[i].0;
            assert(self.violations().contains_key(entries@[i as int].0));
            let c = self.connection_count(ip);
            let banned = self.ban_remaining_secs(ip, now).is_some();
            r.push(
                OffenderReport {
                    ip,
                    violation_count: entries[i].1.count,
                    active_connections_http: c.active_http,
                    active_connections_ws: c.active_ws,
                    is_banned: banned,
                },
            );
        }
        proof {
            assert forall|ip: IpAddress| #[trigger] self.violations().contains_key(ip) implies exists|k: int|
                0 <= k < r@.len() && #[trigger] r@[k].ip == ip by {
                let j = choose|j: int| 0 <= j < entries@.len() && #[trigger] entries@[j].0 == ip;
                assert(r@[j].ip == ip);
            }
        }
        r
    }

    /// The clients with the most violations, most first, at most ten of
    /// them: every client left out has no more violations than every one
    /// listed, and all are listed when there are fewer than ten.
    pub fn top_offenders(&self, now: u128) -> (r: Vec<OffenderReport>)
        ensures
            r@.len() <= TOP_OFFENDERS,
            forall|k: int|
                0 <= k < r@.len() ==> reports_offender(
                    self.violations(),
                    self.conns(),
                    self.bans(),
                    #[trigger] r@[k],
                    now,
                ),
            forall|k: int, l: int| 0 <= k < l < r@.len() ==> r@[k].ip != r@[l].ip,
            forall|k: int, l: int|
                0 <= k < l < r@.len() ==> r@[k].violation_count >= r@[l].violation_count,
            forall|ip: IpAddress|
                #[trigger] self.violations().contains_key(ip) && (forall|k: int|
                    0 <= k < r@.len() ==> r@[k].ip != ip) ==> r@.len() == TOP_OFFENDERS && forall|k: int|
                    0 <= k < r@.len() ==> self.violations()[ip].count <= #[trigger] r@[k].violation_count,
    {
        let lines = self.offender_lines(now);
        let n = lines.len();
        let mut taken: Vec<bool> = Vec::new();
        for i in 0..n
            invariant
                taken@.len() == i,
                forall|j: int| 0 <= j < i ==> !taken@[j],
        {
            taken.push(false);
        }
        let mut r: Vec<OffenderReport> = Vec::new();
        let ghost mut src: Seq<int> = Seq::empty();
        while r.len() < TOP_OFFENDERS
            invariant
                n == lines@.len(),
                taken@.len() == n,
                r@.len() <= TOP_OFFENDERS,
                src.len() == r@.len(),
                forall|k: int| 0 <= k < r@.len() ==> 0 <= #[trigger] src[k] < n && r@[k] == lines@[src[k]],
                forall|k: int, l: int| 0 <= k < l < r@.len() ==> src[k] != src[l],
                forall|j: int| 0 <= j < n ==> (#[trigger] taken@[j] <==> exists|k: int| 0 <= k < r@.len() && src[k] == j),
                forall|k: int, l: int|
                    0 <= k < l < r@.len() ==> r@[k].violation_count >= r@[l].violation_count,
                forall|j: int, k: int|
                    0 <= j < n && !#[trigger] taken@[j] && 0 <= k < r@.len() ==> lines@[j].violation_count
                        <= #[trigger] r@[k].violation_count,
                forall|j: int|
                    0 <= j < n ==> reports_offender(
                        self.violations(),
                        self.conns(),
                        self.bans(),
                        #[trigger] lines@[j],
                        now,
                    ),
            ensures
                r@.len() == TOP_OFFENDERS || forall|j: int| 0 <= j < n ==> #[trigger] taken@[j],
            decreases TOP_OFFENDERS - r@.len(),
        {
            let mut best: Option<usize> = None;
            for j in 0..n
                invariant
                    n == lines@.len(),
                    taken@.len() == n,
                    match best {
                        None => forall|x: int| 0 <= x < j ==> #[trigger] taken@[x],
                        Some(b) => {
                            &&& b < j
                            &&& !taken@[b as int]
                            &&& forall|x: int|
                                0 <= x < j && !#[trigger] taken@[x] ==> lines@[x].violation_count
                                    <= lines@[b as int].violation_count
                        },
                    },
            {
                if !taken[j] {
                    match best {
                        None => {
                            best = Some(j);
                        },
                        Some(b) => {
                            if lines[j].violation_count > lines[b].violation_count {
                                best = Some(j);
                            }
                        },
                    }
                }
            }
            match best {
                None => {
                    break;
                },
                Some(b) => {
                    let ghost old_src = src;
                    let ghost old_taken = taken@;
                    r.push(lines[b]);
                    taken.set(b, true);
                    proof {
                        src = src.push(b as int);
                        assert forall|j: int| 0 <= j < n implies (#[trigger] taken@[j] <==> exists|k: int|
                            0 <= k < r@.len() && src[k] == j) by {
                            if j == b {
                                assert(src[r@.len() - 1] == j);
                            } else if old_taken[j] {
                                let k = choose|k: int| 0 <= k < old_src.len() && old_src[k] == j;
                                assert(src[k] == j);
                            }
                        }
                    }
                },
            }
        }
        proof {
            assert forall|ip: IpAddress|
                #[trigger] self.violations().contains_key(ip) && (forall|k: int|
                    0 <= k < r@.len() ==> r@[k].ip != ip) implies r@.len() == TOP_OFFENDERS && forall|k: int|
                0 <= k < r@.len() ==> self.violations()[ip].count <= #[trigger] r@[k].violation_count by {
                let j = choose|j: int| 0 <= j < lines@.len() && #[trigger] lines@[j].ip == ip;
                if taken@[j] {
                    let k = choose|k: int| 0 <= k < r@.len() && src[k] == j;
                    assert(r@[k].ip == ip);
                }
                if r@.len() < TOP_OFFENDERS {
                    assert(taken@[j]);
                }
            }
            assert forall|k: int| 0 <= k < r@.len() implies reports_offender(
                self.violations(),
                self.conns(),
                self.bans(),
                #[trigger] r@[k],
                now,
            ) by {
                assert(r@[k] == lines@[src[k]]);
            }
            assert forall|k: int, l: int| 0 <= k < l < r@.len() implies r@[k].ip != r@[l].ip by {
                assert(src[k] != src[l]);
                assert(lines@[src[k]].ip != lines@[src[l]].ip);
            }
        }
        r
    }

    /// Lifts every ban.
    pub fn clear_bans(&mut self)
        ensures
            final(self).bans() == no_bans(),
            final(self).conns() == old(self).conns(),
            final(self).violations() == old(self).violations(),
            final(self).blocked() == old(self).blocked(),
    {
        bans_clear(&mut self.bans);
    }
}

impl Default for ProtectionState {
    fn default() -> (r: ProtectionState)
        ensures
            r.conns() == no_connections(),
            r.bans() == no_bans(),
            r.violations() == no_violations(),
            r.blocked() == 0,
    {
        ProtectionState::new()
    }
}

/// While a ban lasts, the client is turned away: a violation that reaches
/// the threshold bans it until the configured duration has passed.
pub proof fn lemma_threshold_bans(
    v: ViolationMap,
    b: BanMap,
    ip: IpAddress,
    reason: Seq<char>,
    cfg: ProtectionConfig,
    now: u128,
    later: u128,
)
    requires
        violations_of(v, ip) + 1 >= cfg.ban_threshold_violations,
        now + cfg.ban_duration_seconds * 1_000_000_000 <= u128::MAX,
        later < now + cfg.ban_duration_seconds * 1_000_000_000,
    ensures
        bans_after_violation(v, b, ip, reason, cfg, now).contains_key(ip),
        bans_after_violation(v, b, ip, reason, cfg, now)[ip].0 > later,
        bans_after_violation(v, b, ip, reason, cfg, now)[ip].1 == reason,
        is_banned_at(bans_after_violation(v, b, ip, reason, cfg, now), ip, later),
{
}

/// Once a client's violations reach the threshold they stay there: every
/// later violation bans it again, also after an earlier ban has ended or
/// been lifted.
pub proof fn lemma_offender_stays_over_threshold(v: ViolationMap, ip: IpAddress, cfg: ProtectionConfig, now: u128)
    requires
        violations_of(v, ip) + 1 >= cfg.ban_threshold_violations,
        violations_of(v, ip) < u32::MAX,
    ensures
        violations_of(with_violation(v, ip, now), ip) + 1 >= cfg.ban_threshold_violations,
        violations_of(with_violation(v, ip, now), ip) == violations_of(v, ip) + 1,
{
}

/// Below the threshold a violation bans nobody: the bans stay as they were.
pub proof fn lemma_below_threshold_keeps_bans(
    v: ViolationMap,
    b: BanMap,
    ip: IpAddress,
    reason: Seq<char>,
    cfg: ProtectionConfig,
    now: u128,
)
    requires
        !reaches_threshold(v, ip, cfg),
    ensures
        bans_after_violation(v, b, ip, reason, cfg, now) == b,
{
}

/// After its ban is lifted, a client passes the ban check at any time.
pub proof fn lemma_unbanned_passes(b: BanMap, ip: IpAddress, now: u128)
    ensures
        !is_banned_at(b.remove(ip), ip, now),
{
}

/// A client that passes the ban check holds no ban afterwards, so a later
/// check passes too.
pub proof fn lemma_passed_check_clears_ban(b: BanMap, ip: IpAddress, now: u128, later: u128)
    requires
        !is_banned_at(b, ip, now),
    ensures
        !b.remove(ip).contains_key(ip),
        !is_banned_at(b.remove(ip), ip, later),
{
}

/// The WebSocket limit is kept: a client at or under the limit stays at or
/// under it whatever it asks for.
pub proof fn lemma_ws_limit_kept(c: ConnMap, ip: IpAddress, limit: u32)
    requires
        connections_of(c, ip).active_ws <= limit,
    ensures
        connections_of(after_ws_acquire(c, ip, limit), ip).active_ws <= limit,
{
}

/// Giving back a WebSocket slot undoes taking it: the client's counts are
/// those it had before.
pub proof fn lemma_ws_release_undoes_acquire(c: ConnMap, ip: IpAddress, limit: u32)
    requires
        ws_slot_free(c, ip, limit),
    ensures
        after_ws_release(after_ws_acquire(c, ip, limit), ip) == c.insert(ip, connections_of(c, ip)),
{
    assert(after_ws_release(after_ws_acquire(c, ip, limit), ip) =~= c.insert(ip, connections_of(c, ip)));
}

/// Every admitted request gives its slot back: whichever way it ends,
/// every client's connection counts are those from before its admission.
pub proof fn lemma_request_slot_returned(c: ConnMap, ip: IpAddress, x: IpAddress)
    requires
        connections_of(c, ip).active_http < u32::MAX,
    ensures
        connections_of(after_http_release(after_admission(c, ip), ip), x) == connections_of(c, x),
{
}

/// Giving back the HTTP slot of an admitted request undoes taking it.
pub proof fn lemma_http_release_undoes_admission(c: ConnMap, ip: IpAddress)
    requires
        connections_of(c, ip).active_http < u32::MAX,
    ensures
        after_http_release(
            c.insert(
                ip,
                ConnectionCount {
                    active_http: (connections_of(c, ip).active_http + 1) as u32,
                    ..connections_of(c, ip)
                },
            ),
            ip,
        ) == c.insert(ip, connections_of(c, ip)),
{
    assert(after_http_release(
        c.insert(
            ip,
            ConnectionCount {
                active_http: (connections_of(c, ip).active_http + 1) as u32,
                ..connections_of(c, ip)
            },
        ),
        ip,
    ) =~= c.insert(ip, connections_of(c, ip)));
}

/// Whether a request method carries a body that the size limit applies to.
pub open spec fn method_has_body(method: Seq<char>) -> bool {
    method == "POST"@ || method == "PUT"@ || method == "PATCH"@
}

/// Whether a body read without a declared length is over the limit: only
/// `POST`, `PUT` and `PATCH` bodies are held to it.
pub fn body_over_limit(method: &str, body_len: u64, max_body_bytes: u64) -> (r: bool)
    ensures
        r == (method_has_body(method@) && body_len > max_body_bytes),
{
    (str_eq(method, "POST") || str_eq(method, "PUT") || str_eq(method, "PATCH")) && body_len > max_body_bytes
}

} // verus!
