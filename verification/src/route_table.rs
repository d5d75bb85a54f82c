//! Path-prefix routing table with longest-prefix matching.
use vstd::prelude::*;
use vstd::string::*;
use dashmap::DashMap;
use crate::text::{chars_of, has_prefix, starts_with};

verus! {

/// `dashmap::DashMap`, held as an opaque value.
#[verifier::external_type_specification]
#[verifier::external_body]
#[verifier::reject_recursive_types(K)]
#[verifier::reject_recursive_types(V)]
#[verifier::reject_recursive_types(S)]
pub struct ExDashMap<K, V, S>(DashMap<K, V, S>);

/// Where a route sends its traffic, and whether it is in use.
#[derive(Clone, Debug)]
pub struct UpstreamTarget {
    pub upstream_url: String,
    pub enabled: bool,
}

impl View for UpstreamTarget {
    type V = (Seq<char>, bool);

    open spec fn view(&self) -> (Seq<char>, bool) {
        (self.upstream_url@, self.enabled)
    }
}

impl UpstreamTarget {
    /// A copy with the same URL and flag.
    pub fn copy(&self) -> (r: UpstreamTarget)
        ensures
            r@ == self@,
    {
        UpstreamTarget { upstream_url: self.upstream_url.clone(), enabled: self.enabled }
    }
}

/// Routes as plain values: prefix to (upstream URL, enabled).
pub type RouteMap = Map<Seq<char>, (Seq<char>, bool)>;

/// A route map without entries.
pub open spec fn empty_routes() -> RouteMap {
    Map::empty()
}

/// The entries held by a route map.
pub uninterp spec fn route_entries(m: DashMap<String, UpstreamTarget>) -> RouteMap;

/// `DashMap::new`: a map with no entries.
#[verifier::external_body]
fn routes_new() -> (m: DashMap<String, UpstreamTarget>)
    ensures
        route_entries(m) == empty_routes(),
{
    DashMap::new()
}

/// `DashMap::insert`: the key now maps to the value, other keys unchanged.
#[verifier::external_body]
fn routes_insert(m: &mut DashMap<String, UpstreamTarget>, key: String, value: UpstreamTarget)
    ensures
        route_entries(*final(m)) == route_entries(*old(m)).insert(key@, value@),
{
    m.insert(key, value);
}

/// `DashMap::remove`: the key has no entry afterwards, other keys unchanged.
#[verifier::external_body]
fn routes_remove(m: &mut DashMap<String, UpstreamTarget>, key: &str)
    ensures
        route_entries(*final(m)) == route_entries(*old(m)).remove(key@),
{
    m.remove(key);
}

/// `DashMap::clear`: no entries afterwards.
#[verifier::external_body]
fn routes_clear(m: &mut DashMap<String, UpstreamTarget>)
    ensures
        route_entries(*final(m)) == empty_routes(),
{
    m.clear();
}

/// `DashMap::len`: the number of entries.
#[verifier::external_body]
fn routes_len(m: &DashMap<String, UpstreamTarget>) -> (r: usize)
    ensures
        r as nat == route_entries(*m).dom().len(),
{
    m.len()
}

/// `v` lists every entry of `m` exactly once, in any order.
pub open spec fn lists_routes(m: RouteMap, v: Seq<(String, UpstreamTarget)>) -> bool {
    &&& forall|i: int|
        0 <= i < v.len() ==> #[trigger] m.contains_key(v[i].0@) && m[v[i].0@] == v[i].1@
    &&& forall|k: Seq<char>|
        #[trigger] m.contains_key(k) ==> exists|i: int| 0 <= i < v.len() && #[trigger] v[i].0@ == k
    &&& forall|i: int, j: int| 0 <= i < j < v.len() ==> v[i].0@ != v[j].0@
}

/// `DashMap::iter`, each entry copied out: every entry exactly once, in an
/// order that the map does not fix.
#[verifier::external_body]
fn routes_snapshot(m: &DashMap<String, UpstreamTarget>) -> (v: Vec<(String, UpstreamTarget)>)
    ensures
        lists_routes(route_entries(*m), v@),
{
    m.iter().map(|e| (e.key().clone(), e.value().clone())).collect()
}

/// Whether a route survives `clear_remotes`: it does not start with
/// `/remotes/`.
pub fn is_not_remote_route(prefix: &String) -> (r: bool)
    ensures
        r == !starts_with(prefix@, "/remotes/"@),
{
    let p = chars_of(prefix.as_str());
    let r = chars_of("/remotes/");
    !has_prefix(p.as_slice(), r.as_slice())
}

/// `DashMap::retain` with `is_not_remote_route` as the test: the entries
/// whose key starts with `/remotes/` go, the others stay.
#[verifier::external_body]
fn routes_retain_non_remote(m: &mut DashMap<String, UpstreamTarget>)
    ensures
        route_entries(*final(m)) == route_entries(*old(m)).restrict(
            route_entries(*old(m)).dom().filter(|k: Seq<char>| !starts_with(k, "/remotes/"@)),
        ),
{
    m.retain(|k, _| is_not_remote_route(k));
}

/// A route that serves `path`: enabled, and its prefix starts the path.
pub open spec fn serves(m: RouteMap, path: Seq<char>, p: Seq<char>) -> bool {
    m.contains_key(p) && m[p].1 && starts_with(path, p)
}

/// What `resolve` answers: the longest enabled prefix of `path` with its
/// target, or nothing when no enabled prefix starts the path.
pub open spec fn resolves_to(m: RouteMap, path: Seq<char>, r: Option<(Seq<char>, (Seq<char>, bool))>) -> bool {
    match r {
        None => forall|q: Seq<char>| !#[trigger] serves(m, path, q),
        Some((p, t)) => {
            &&& serves(m, path, p)
            &&& t == m[p]
            &&& forall|q: Seq<char>| #[trigger] serves(m, path, q) ==> q.len() <= p.len()
        },
    }
}

/// Two routes that both serve a path and have the same length are the same
/// route, so the longest one is unique.
pub proof fn lemma_longest_is_unique(m: RouteMap, path: Seq<char>, p: Seq<char>, q: Seq<char>)
    requires
        serves(m, path, p),
        serves(m, path, q),
        p.len() == q.len(),
    ensures
        p == q,
{
    assert(p =~= path.subrange(0, p.len() as int));
    assert(q =~= path.subrange(0, q.len() as int));
}

/// A route just set takes every path that its prefix starts: resolving such
/// a path answers a prefix at least as long, and answers that very route
/// unless another enabled route with a longer prefix also starts the path.
pub proof fn lemma_resolve_after_upsert(
    m: RouteMap,
    p: Seq<char>,
    t: (Seq<char>, bool),
    path: Seq<char>,
    r: Option<(Seq<char>, (Seq<char>, bool))>,
)
    requires
        t.1,
        starts_with(path, p),
        resolves_to(m.insert(p, t), path, r),
    ensures
        r is Some,
        r->Some_0.0.len() >= p.len(),
        (forall|q: Seq<char>| #[trigger] serves(m, path, q) ==> q.len() <= p.len()) ==> r == Some((p, t)),
{
    let m1 = m.insert(p, t);
    assert(serves(m1, path, p));
    if r is Some {
        let x = r->Some_0.0;
        if forall|q: Seq<char>| #[trigger] serves(m, path, q) ==> q.len() <= p.len() {
            if x != p {
                assert(serves(m, path, x));
                lemma_longest_is_unique(m1, path, x, p);
            }
        }
    }
}

/// Concurrent map of path prefix to upstream target.
pub struct RouteTable {
    inner: DashMap<String, UpstreamTarget>,
}

impl View for RouteTable {
    type V = RouteMap;

    closed spec fn view(&self) -> RouteMap {
        route_entries(self.inner)
    }
}

impl RouteTable {
    /// An empty table.
    pub fn new() -> (r: RouteTable)
        ensures
            r@ == empty_routes(),
    {
        RouteTable { inner: routes_new() }
    }

    /// Sets the target of a prefix, replacing any earlier one.
    pub fn upsert(&mut self, prefix: &str, target: UpstreamTarget)
        ensures
            final(self)@ == old(self)@.insert(prefix@, target@),
    {
        routes_insert(&mut self.inner, String::from_str(prefix), target);
    }

    /// Removes the route of a prefix.
    pub fn remove(&mut self, prefix: &str)
        ensures
            final(self)@ == old(self)@.remove(prefix@),
    {
        routes_remove(&mut self.inner, prefix);
    }

    /// The target and the matched prefix for `path`: the longest enabled
    /// prefix that starts the path; `None` when there is none.
    pub fn resolve(&self, path: &str) -> (r: Option<(String, UpstreamTarget)>)
        ensures
            resolves_to(
                self@,
                path@,
                match r {
                    Some((p, t)) => Some((p@, t@)),
                    None => None,
                },
            ),
    {
        let entries = routes_snapshot(&self.inner);
        let ghost m = self@;
        let pc = chars_of(path);
        let mut best: Option<usize> = None;
        let mut best_len: usize = 0;
        for i in 0..entries.len()
            invariant
                m == self@,
                pc@ == path@,
                forall|j: int|
                    0 <= j < entries@.len() ==> #[trigger] m.contains_key(entries@[j].0@)
                        && m[entries@[j].0@] == entries@[j].1@,
                match best {
                    None => forall|j: int| 0 <= j < i ==> !serves(m, path@, #[trigger] entries@[j].0@),
                    Some(b) => {
                        &&& b < i
                        &&& serves(m, path@, entries@[b as int].0@)
                        &&& best_len == entries@[b as int].0@.len()
                        &&& forall|j: int|
                            0 <= j < i && serves(m, path@, #[trigger] entries@[j].0@)
                                ==> entries@[j].0@.len() <= best_len
                    },
                },
        {
            let kc = chars_of(entries[i].0.as_str());
            assert(m.contains_key(entries@[i as int].0@));
            let hit = entries[i].1.enabled && has_prefix(pc.as_slice(), kc.as_slice());
            assert(hit == serves(m, path@, entries@[i as int].0@));
            if hit {
                let longer = match best {
                    None => true,
                    Some(_) => kc.len() > best_len,
                };
                if longer {
                    best = Some(i);
                    best_len = kc.len();
                }
            }
        }
        match best {
            None => {
                assert forall|q: Seq<char>| !#[trigger] serves(m, path@, q) by {
                    if serves(m, path@, q) {
                        let j = choose|j: int| 0 <= j < entries@.len() && #[trigger] entries@[j].0@ == q;
                        assert(!serves(m, path@, entries@[j].0@));
                    }
                }
                None
            },
            Some(b) => {
                assert forall|q: Seq<char>| #[trigger] serves(m, path@, q) implies q.len() <= best_len by {
                    let j = choose|j: int| 0 <= j < entries@.len() && #[trigger] entries@[j].0@ == q;
                    assert(serves(m, path@, entries@[j].0@));
                }
                Some((entries[b].0.clone(), entries[b].1.copy()))
            },
        }
    }

    /// The number of routes.
    pub fn len(&self) -> (r: usize)
        ensures
            r as nat == self@.dom().len(),
    {
        routes_len(&self.inner)
    }

    /// Removes every route.
    pub fn clear(&mut self)
        ensures
            final(self)@ == empty_routes(),
    {
        routes_clear(&mut self.inner);
    }

    /// Removes the remote routes, those whose prefix starts with `/remotes/`.
    pub fn clear_remotes(&mut self)
        ensures
            final(self)@ == old(self)@.restrict(
                old(self)@.dom().filter(|k: Seq<char>| !starts_with(k, "/remotes/"@)),
            ),
    {
        routes_retain_non_remote(&mut self.inner);
    }

    /// Every (prefix, target) pair exactly once, in no fixed order.
    pub fn iter_all(&self) -> (v: Vec<(String, UpstreamTarget)>)
        ensures
            lists_routes(self@, v@),
    {
        routes_snapshot(&self.inner)
    }
}

impl Default for RouteTable {
    fn default() -> (r: RouteTable)
        ensures
            r@ == empty_routes(),
    {
        RouteTable::new()
    }
}

} // verus!
