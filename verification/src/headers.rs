//! Response header policy: security headers, operator-supplied custom
//! headers, and the cache-control value chosen for a proxied path.
use vstd::prelude::*;
use vstd::string::*;
use crate::state::CustomHeader;
use crate::text::{chars_of, ends_with, has_prefix, has_suffix_lower, lower_seq, starts_with};

verus! {

/// A header list as plain values: (name, value) pairs in order.
pub type HeaderList = Seq<(Seq<char>, Seq<char>)>;

/// `h` without any entry named `n`, the other entries in order.
pub open spec fn without_name(h: HeaderList, n: Seq<char>) -> HeaderList
    decreases h.len(),
{
    if h.len() == 0 {
        h
    } else {
        let rest = without_name(h.drop_last(), n);
        if h.last().0 == n {
            rest
        } else {
            rest.push(h.last())
        }
    }
}

/// The values of the entries named `n`, in order.
pub open spec fn values_named(h: HeaderList, n: Seq<char>) -> Seq<Seq<char>>
    decreases h.len(),
{
    if h.len() == 0 {
        Seq::empty()
    } else {
        let rest = values_named(h.drop_last(), n);
        if h.last().0 == n {
            rest.push(h.last().1)
        } else {
            rest
        }
    }
}

/// Setting a header: every earlier entry of that name goes, the new one is
/// placed last.
pub open spec fn set_header(h: HeaderList, n: Seq<char>, v: Seq<char>) -> HeaderList {
    without_name(h, n).push((n, v))
}

/// The five security headers, in the order in which they are set.
pub open spec fn security_headers() -> Seq<(Seq<char>, Seq<char>)> {
    seq![
        ("x-frame-options"@, "SAMEORIGIN"@),
        ("x-content-type-options"@, "nosniff"@),
        ("x-xss-protection"@, "1; mode=block"@),
        ("referrer-policy"@, "strict-origin-when-cross-origin"@),
        ("permissions-policy"@, "camera=(), microphone=(), geolocation=()"@),
    ]
}

/// The header list after the security headers have been set on `h`.
pub open spec fn with_security_headers(h: HeaderList) -> HeaderList {
    let ghost s = security_headers();
    set_header(
        set_header(
            set_header(set_header(set_header(h, s[0].0, s[0].1), s[1].0, s[1].1), s[2].0, s[2].1),
            s[3].0,
            s[3].1,
        ),
        s[4].0,
        s[4].1,
    )
}

/// Names that custom headers may never set (compared in lower case).
pub open spec fn is_locked_name(lower_name: Seq<char>) -> bool {
    exists|i: int| 0 <= i < 5 && security_headers()[i].0 == lower_name
}

/// Characters allowed in a header name.
pub open spec fn is_token_char(c: char) -> bool {
    ||| ('a' <= c && c <= 'z')
    ||| ('A' <= c && c <= 'Z')
    ||| ('0' <= c && c <= '9')
    ||| c == '!' || c == '#' || c == '$' || c == '%' || c == '&' || c == '\''
    ||| c == '*' || c == '+' || c == '-' || c == '.' || c == '^' || c == '_'
    ||| c == '`' || c == '|' || c == '~'
}

/// What parsing a header name gives: the lower-cased name when it has 1 to
/// 65535 characters, all of them token characters; nothing otherwise.
pub open spec fn header_name_parse(n: Seq<char>) -> Option<Seq<char>> {
    if 1 <= n.len() <= 65535 && (forall|i: int| 0 <= i < n.len() ==> is_token_char(#[trigger] n[i])) {
        Some(lower_seq(n))
    } else {
        None
    }
}

/// Whether a string is accepted as a header value: tab, or any character
/// from space upwards except DEL.
pub open spec fn header_value_valid(v: Seq<char>) -> bool {
    forall|i: int|
        0 <= i < v.len() ==> (#[trigger] v[i] == '\t' || (v[i] as u32 >= 32 && v[i] as u32 != 127))
}

/// One custom header applied to `h`.
pub open spec fn custom_step(h: HeaderList, ch: (Seq<char>, Seq<char>)) -> HeaderList {
    if is_locked_name(lower_seq(ch.0)) {
        h
    } else {
        match header_name_parse(ch.0) {
            Some(n) => if header_value_valid(ch.1) {
                set_header(h, n, ch.1)
            } else {
                h
            },
            None => h,
        }
    }
}

/// The custom headers `cs` applied to `h` in order.
pub open spec fn with_custom_headers(h: HeaderList, cs: Seq<(Seq<char>, Seq<char>)>) -> HeaderList
    decreases cs.len(),
{
    if cs.len() == 0 {
        h
    } else {
        custom_step(with_custom_headers(h, cs.drop_last()), cs.last())
    }
}

/// `http::HeaderName::from_str`, reached as `axum::http::HeaderName`.
/// Claimed: it accepts exactly the names of 1 to 65535 token characters
/// and gives them back lower-cased (the name table of the `http` crate).
#[verifier::external_body]
fn parse_header_name(name: &str) -> (r: Option<String>)
    ensures
        match r {
            Some(n) => header_name_parse(name@) == Some(n@),
            None => header_name_parse(name@) is None,
        },
{
    match name.parse::<axum::http::HeaderName>() {
        Ok(h) => Some(h.as_str().to_owned()),
        Err(_) => None,
    }
}

/// `http::HeaderValue::from_str`, reached as `axum::http::HeaderValue`.
/// Claimed: it succeeds exactly when every byte of the value is a tab or
/// at least 32 and not 127, which on characters is `header_value_valid`.
#[verifier::external_body]
fn header_value_accepted(value: &str) -> (r: bool)
    ensures
        r == header_value_valid(value@),
{
    axum::http::HeaderValue::from_str(value).is_ok()
}

/// One header: name and value.
pub struct HeaderField {
    pub name: String,
    pub value: String,
}

impl HeaderField {
    /// A copy with the same name and value.
    pub fn copy(&self) -> (r: HeaderField)
        ensures
            r.name@ == self.name@,
            r.value@ == self.value@,
    {
        HeaderField { name: self.name.clone(), value: self.value.clone() }
    }
}

/// An ordered list of headers, as carried by a request or a response.
pub struct HeaderSet {
    pub fields: Vec<HeaderField>,
}

impl View for HeaderSet {
    type V = HeaderList;

    open spec fn view(&self) -> HeaderList {
        self.fields@.map_values(|f: HeaderField| (f.name@, f.value@))
    }
}

impl HeaderSet {
    /// An empty header list.
    pub fn new() -> (r: HeaderSet)
        ensures
            r@ == Seq::<(Seq<char>, Seq<char>)>::empty(),
    {
        let r = HeaderSet { fields: Vec::new() };
        assert(r@ =~= Seq::<(Seq<char>, Seq<char>)>::empty());
        r
    }

    /// Adds an entry at the end, keeping the entries of the same name.
    pub fn append(&mut self, name: &str, value: &str)
        ensures
            final(self)@ == old(self)@.push((name@, value@)),
    {
        let f = HeaderField { name: String::from_str(name), value: String::from_str(value) };
        self.fields.push(f);
        assert(self@ =~= old(self)@.push((name@, value@)));
    }

    /// Sets a header: entries of that name are replaced by this one.
    pub fn set(&mut self, name: &str, value: &str)
        ensures
            final(self)@ == set_header(old(self)@, name@, value@),
    {
        let n = String::from_str(name);
        let mut kept: Vec<HeaderField> = Vec::new();
        let ghost h = self@;
        for i in 0..self.fields.len()
            invariant
                h == self@,
                n@ == name@,
                kept@.map_values(|f: HeaderField| (f.name@, f.value@)) == without_name(
                    h.take(i as int),
                    name@,
                ),
        {
            let ghost before = kept@;
            assert(h.take(i + 1).drop_last() =~= h.take(i as int));
            assert(h.take(i + 1).last() == h[i as int]);
            assert(h[i as int] == (self.fields@[i as int].name@, self.fields@[i as int].value@));
            let same = self.fields[i].name.eq(&n);
            assert(same == (h[i as int].0 == name@));
            if !same {
                kept.push(self.fields[i].copy());
                assert(kept@.map_values(|f: HeaderField| (f.name@, f.value@)) =~= before.map_values(
                    |f: HeaderField| (f.name@, f.value@),
                ).push(h[i as int]));
            }
            assert(without_name(h.take(i + 1), name@) == if h[i as int].0 == name@ {
                without_name(h.take(i as int), name@)
            } else {
                without_name(h.take(i as int), name@).push(h[i as int])
            });
        }
        assert(h.take(h.len() as int) =~= h);
        kept.push(HeaderField { name: n, value: String::from_str(value) });
        self.fields = kept;
        assert(self@ =~= set_header(h, name@, value@));
    }

    /// The values of the entries named `name`, in order.
    pub fn values(&self, name: &str) -> (r: Vec<String>)
        ensures
            r@.map_values(|s: String| s@) == values_named(self@, name@),
    {
        let n = String::from_str(name);
        let mut r: Vec<String> = Vec::new();
        let ghost h = self@;
        for i in 0..self.fields.len()
            invariant
                h == self@,
                n@ == name@,
                r@.map_values(|s: String| s@) == values_named(h.take(i as int), name@),
        {
            let ghost before = r@;
            assert(h.take(i + 1).drop_last() =~= h.take(i as int));
            assert(h.take(i + 1).last() == h[i as int]);
            assert(h[i as int] == (self.fields@[i as int].name@, self.fields@[i as int].value@));
            if self.fields[i].name == n {
                r.push(self.fields[i].value.clone());
                assert(r@.map_values(|s: String| s@) =~= before.map_values(|s: String| s@).push(
                    h[i as int].1,
                ));
            }
        }
        assert(h.take(h.len() as int) =~= h);
        r
    }
}

/// Whether the ASCII lower-casing of `s` is exactly `lit`.
fn lower_equals(s: &[char], lit: &str) -> (r: bool)
    ensures
        r == (lower_seq(s@) == lit@),
{
    let p = chars_of(lit);
    if s.len() != p.len() {
        return false;
    }
    let r = has_suffix_lower(s, p.as_slice());
    assert(lower_seq(s@).subrange(0, s@.len() as int) =~= lower_seq(s@));
    r
}

/// Whether a header name, compared in lower case, is one of the five
/// security headers.
pub fn is_locked(name: &str) -> (r: bool)
    ensures
        r == is_locked_name(lower_seq(name@)),
{
    let cs = chars_of(name);
    let ghost s = security_headers();
    let r = lower_equals(cs.as_slice(), "x-frame-options") || lower_equals(
        cs.as_slice(),
        "x-content-type-options",
    ) || lower_equals(cs.as_slice(), "x-xss-protection") || lower_equals(
        cs.as_slice(),
        "referrer-policy",
    ) || lower_equals(cs.as_slice(), "permissions-policy");
    assert(r ==> is_locked_name(lower_seq(name@))) by {
        if lower_seq(name@) == s[0].0 {
            assert(0 <= 0int < 5 && s[0int].0 == lower_seq(name@));
        } else if lower_seq(name@) == s[1].0 {
            assert(0 <= 1int < 5 && s[1int].0 == lower_seq(name@));
        } else if lower_seq(name@) == s[2].0 {
            assert(0 <= 2int < 5 && s[2int].0 == lower_seq(name@));
        } else if lower_seq(name@) == s[3].0 {
            assert(0 <= 3int < 5 && s[3int].0 == lower_seq(name@));
        } else if lower_seq(name@) == s[4].0 {
            assert(0 <= 4int < 5 && s[4int].0 == lower_seq(name@));
        }
    }
    r
}

/// Sets the five security headers on `headers`, replacing whatever was
/// there under those names.
pub fn apply_security_headers(headers: &mut HeaderSet)
    ensures
        final(headers)@ == with_security_headers(old(headers)@),
{
    headers.set("x-frame-options", "SAMEORIGIN");
    headers.set("x-content-type-options", "nosniff");
    headers.set("x-xss-protection", "1; mode=block");
    headers.set("referrer-policy", "strict-origin-when-cross-origin");
    headers.set("permissions-policy", "camera=(), microphone=(), geolocation=()");
}

/// The custom headers as plain (name, value) pairs.
pub open spec fn custom_pairs(cs: Seq<CustomHeader>) -> Seq<(Seq<char>, Seq<char>)> {
    cs.map_values(|c: CustomHeader| (c.name@, c.value@))
}

/// Sets each custom header in turn, skipping the security header names
/// (in any letter case) and names or values that are not valid headers.
pub fn apply_custom_headers(headers: &mut HeaderSet, custom_headers: &[CustomHeader])
    ensures
        final(headers)@ == with_custom_headers(old(headers)@, custom_pairs(custom_headers@)),
{
    let ghost cs = custom_pairs(custom_headers@);
    let ghost start = headers@;
    for i in 0..custom_headers.len()
        invariant
            cs == custom_pairs(custom_headers@),
            headers@ == with_custom_headers(start, cs.take(i as int)),
    {
        assert(cs.take(i + 1).drop_last() =~= cs.take(i as int));
        assert(cs.take(i + 1).last() == cs[i as int]);
        let ch = &custom_headers[i];
        if !is_locked(ch.name.as_str()) {
            match parse_header_name(ch.name.as_str()) {
                Some(name) => {
                    if header_value_accepted(ch.value.as_str()) {
                        headers.set(name.as_str(), ch.value.as_str());
                    }
                },
                None => {},
            }
        }
    }
    assert(cs.take(cs.len() as int) =~= cs);
}

/// `remoteEntry` manifests must never be cached.
pub open spec fn is_manifest_path(path: Seq<char>) -> bool {
    ends_with(lower_seq(path), "remoteentry.json"@) || ends_with(lower_seq(path), "remoteentry.js"@)
}

/// Fingerprinted build assets under `/assets/`: scripts, styles and fonts.
pub open spec fn is_immutable_asset_path(path: Seq<char>) -> bool {
    &&& starts_with(path, "/assets/"@)
    &&& (ends_with(lower_seq(path), ".js"@) || ends_with(lower_seq(path), ".css"@) || ends_with(
        lower_seq(path),
        ".woff2"@,
    ))
}

/// The `cache-control` value for a path (letter case of the path ignored
/// in the suffix tests). Lower-casing ASCII letters only answers these
/// tests as full Unicode lower-casing would: the only characters outside
/// ASCII whose lower case holds an ASCII letter are the Kelvin sign (`k`)
/// and the dotted capital I (`i` followed by a combining dot), and no
/// suffix tested here contains `k`, `i` or a combining dot.
pub open spec fn cache_control_for(path: Seq<char>) -> Seq<char> {
    if is_manifest_path(path) {
        "no-store, no-cache, must-revalidate"@
    } else if is_immutable_asset_path(path) {
        "public, max-age=31536000, immutable"@
    } else {
        "no-cache"@
    }
}

fn is_immutable_asset(path: &[char]) -> (r: bool)
    ensures
        r == is_immutable_asset_path(path@),
{
    let assets = chars_of("/assets/");
    if !has_prefix(path, assets.as_slice()) {
        return false;
    }
    let js = chars_of(".js");
    let css = chars_of(".css");
    let woff2 = chars_of(".woff2");
    has_suffix_lower(path, js.as_slice()) || has_suffix_lower(path, css.as_slice())
        || has_suffix_lower(path, woff2.as_slice())
}

/// The `cache-control` value for a proxied path.
pub fn cache_control_value(path: &str) -> (r: &'static str)
    ensures
        r@ == cache_control_for(path@),
{
    let p = chars_of(path);
    let json = chars_of("remoteentry.json");
    let js = chars_of("remoteentry.js");
    if has_suffix_lower(p.as_slice(), json.as_slice()) || has_suffix_lower(p.as_slice(), js.as_slice()) {
        return "no-store, no-cache, must-revalidate";
    }
    if is_immutable_asset(p.as_slice()) {
        return "public, max-age=31536000, immutable";
    }
    "no-cache"
}

/// A path is cached as immutable only when it lies under `/assets/` and its
/// lower-cased form ends in `.js`, `.css` or `.woff2`; any other path that
/// is not a `remoteEntry` manifest must be revalidated (`no-cache`).
pub proof fn lemma_immutable_only_for_assets(path: Seq<char>)
    ensures
        cache_control_for(path) == "public, max-age=31536000, immutable"@ ==> {
            &&& starts_with(path, "/assets/"@)
            &&& (ends_with(lower_seq(path), ".js"@) || ends_with(lower_seq(path), ".css"@) || ends_with(
                lower_seq(path),
                ".woff2"@,
            ))
        },
        !ends_with(lower_seq(path), "remoteentry.json"@) && !ends_with(lower_seq(path), "remoteentry.js"@) && !(
        starts_with(path, "/assets/"@) && (ends_with(lower_seq(path), ".js"@) || ends_with(
            lower_seq(path),
            ".css"@,
        ) || ends_with(lower_seq(path), ".woff2"@))) ==> cache_control_for(path) == "no-cache"@,
        ends_with(lower_seq(path), "remoteentry.json"@) || ends_with(lower_seq(path), "remoteentry.js"@)
            ==> cache_control_for(path) == "no-store, no-cache, must-revalidate"@,
{
    reveal_strlit("public, max-age=31536000, immutable");
    reveal_strlit("no-store, no-cache, must-revalidate");
    reveal_strlit("no-cache");
    assert("public, max-age=31536000, immutable"@ != "no-store, no-cache, must-revalidate"@) by {
        assert("public, max-age=31536000, immutable"@[0] != "no-store, no-cache, must-revalidate"@[0]);
    }
    assert("public, max-age=31536000, immutable"@ != "no-cache"@) by {
        assert("public, max-age=31536000, immutable"@.len() != "no-cache"@.len());
    }
}

/// Removing the entries named `n` leaves no value under `n` and every other
/// name's values as they were.
pub proof fn lemma_values_without(h: HeaderList, n: Seq<char>, m: Seq<char>)
    ensures
        values_named(without_name(h, n), m) == if m == n {
            Seq::<Seq<char>>::empty()
        } else {
            values_named(h, m)
        },
    decreases h.len(),
{
    if h.len() > 0 {
        lemma_values_without(h.drop_last(), n, m);
        let rest = without_name(h.drop_last(), n);
        if h.last().0 != n {
            assert(without_name(h, n).drop_last() =~= rest);
        }
    }
}

/// Setting `n` to `v` leaves exactly `v` under `n` and every other name's
/// values as they were.
pub proof fn lemma_values_set(h: HeaderList, n: Seq<char>, v: Seq<char>, m: Seq<char>)
    ensures
        values_named(set_header(h, n, v), m) == if m == n {
            seq![v]
        } else {
            values_named(h, m)
        },
{
    lemma_values_without(h, n, m);
    let s = set_header(h, n, v);
    assert(s.drop_last() =~= without_name(h, n));
    if m == n {
        assert(values_named(s, m) =~= seq![v]);
    }
}

/// After the security headers are set, each of the five names carries
/// exactly its fixed value, whatever the list held before.
pub proof fn lemma_security_headers_win(h: HeaderList, i: int)
    requires
        0 <= i < 5,
    ensures
        values_named(with_security_headers(h), security_headers()[i].0) == seq![security_headers()[i].1],
{
    reveal_strlit("x-frame-options");
    reveal_strlit("x-content-type-options");
    reveal_strlit("x-xss-protection");
    reveal_strlit("referrer-policy");
    reveal_strlit("permissions-policy");
    let s = security_headers();
    let m = s[i].0;
    let h1 = set_header(h, s[0].0, s[0].1);
    let h2 = set_header(h1, s[1].0, s[1].1);
    let h3 = set_header(h2, s[2].0, s[2].1);
    let h4 = set_header(h3, s[3].0, s[3].1);
    lemma_values_set(h, s[0].0, s[0].1, m);
    lemma_values_set(h1, s[1].0, s[1].1, m);
    lemma_values_set(h2, s[2].0, s[2].1, m);
    lemma_values_set(h3, s[3].0, s[3].1, m);
    lemma_values_set(h4, s[4].0, s[4].1, m);
    assert(s[0].0 != s[1].0 && s[0].0 != s[2].0 && s[0].0 != s[3].0 && s[0].0 != s[4].0) by {
        assert(s[0].0[2] != s[1].0[2]);
        assert(s[0].0[2] != s[2].0[2]);
        assert(s[0].0[0] != s[3].0[0]);
        assert(s[0].0[0] != s[4].0[0]);
    }
    assert(s[1].0 != s[2].0 && s[1].0 != s[3].0 && s[1].0 != s[4].0) by {
        assert(s[1].0[2] != s[2].0[2]);
        assert(s[1].0[0] != s[3].0[0]);
        assert(s[1].0[0] != s[4].0[0]);
    }
    assert(s[2].0 != s[3].0 && s[2].0 != s[4].0) by {
        assert(s[2].0[0] != s[3].0[0]);
        assert(s[2].0[0] != s[4].0[0]);
    }
    assert(s[3].0 != s[4].0) by {
        assert(s[3].0[0] != s[4].0[0]);
    }
}

/// A name that is none of the five security header names.
pub open spec fn not_security_name(n: Seq<char>) -> bool {
    &&& n != "x-frame-options"@
    &&& n != "x-content-type-options"@
    &&& n != "x-xss-protection"@
    &&& n != "referrer-policy"@
    &&& n != "permissions-policy"@
}

/// Setting the security headers leaves the values under every other name
/// as they were.
pub proof fn lemma_security_headers_leave_others(h: HeaderList, n: Seq<char>)
    requires
        not_security_name(n),
    ensures
        values_named(with_security_headers(h), n) == values_named(h, n),
{
    let s = security_headers();
    let h1 = set_header(h, s[0].0, s[0].1);
    let h2 = set_header(h1, s[1].0, s[1].1);
    let h3 = set_header(h2, s[2].0, s[2].1);
    let h4 = set_header(h3, s[3].0, s[3].1);
    lemma_values_set(h, s[0].0, s[0].1, n);
    lemma_values_set(h1, s[1].0, s[1].1, n);
    lemma_values_set(h2, s[2].0, s[2].1, n);
    lemma_values_set(h3, s[3].0, s[3].1, n);
    lemma_values_set(h4, s[4].0, s[4].1, n);
}

/// A custom header with a valid name that is not a security name and a
/// valid value, and that no later custom header of the same lower-cased
/// name follows, is set: its lower-cased name carries exactly its value.
pub proof fn lemma_custom_header_applied(h: HeaderList, cs: Seq<(Seq<char>, Seq<char>)>, i: int)
    requires
        0 <= i < cs.len(),
        not_security_name(lower_seq(cs[i].0)),
        1 <= cs[i].0.len() <= 65535,
        forall|k: int| 0 <= k < cs[i].0.len() ==> is_token_char(#[trigger] cs[i].0[k]),
        forall|k: int|
            0 <= k < cs[i].1.len() ==> (#[trigger] cs[i].1[k] == '\t' || (cs[i].1[k] as u32 >= 32 && cs[i].1[k]
                as u32 != 127)),
        forall|j: int| i < j < cs.len() ==> lower_seq(#[trigger] cs[j].0) != lower_seq(cs[i].0),
    ensures
        values_named(with_custom_headers(h, cs), lower_seq(cs[i].0)) == seq![cs[i].1],
    decreases cs.len(),
{
    let n = lower_seq(cs[i].0);
    let last = cs.len() - 1;
    let prev = with_custom_headers(h, cs.drop_last());
    let ch = cs.last();
    if i == last {
        assert(!is_locked_name(n)) by {
            if is_locked_name(n) {
                let k = choose|k: int| 0 <= k < 5 && security_headers()[k].0 == n;
                assert(0 <= k < 5);
            }
        }
        assert(header_name_parse(ch.0) == Some(n));
        assert(header_value_valid(ch.1));
        lemma_values_set(prev, n, ch.1, n);
    } else {
        let rest = cs.drop_last();
        assert forall|j: int| i < j < rest.len() implies lower_seq(#[trigger] rest[j].0) != lower_seq(rest[i].0) by {
            assert(rest[j] == cs[j]);
        }
        assert(rest[i] == cs[i]);
        lemma_custom_header_applied(h, rest, i);
        assert(lower_seq(cs[last].0) != n);
        if !is_locked_name(lower_seq(ch.0)) {
            match header_name_parse(ch.0) {
                Some(m) => {
                    if header_value_valid(ch.1) {
                        lemma_values_set(prev, m, ch.1, n);
                    }
                },
                None => {},
            }
        }
    }
}

/// Custom headers never add, change or remove a value under a security
/// header name: those names keep exactly the values they had.
pub proof fn lemma_custom_headers_leave_locked(h: HeaderList, cs: Seq<(Seq<char>, Seq<char>)>, m: Seq<char>)
    requires
        is_locked_name(m),
    ensures
        values_named(with_custom_headers(h, cs), m) == values_named(h, m),
    decreases cs.len(),
{
    if cs.len() > 0 {
        lemma_custom_headers_leave_locked(h, cs.drop_last(), m);
        let prev = with_custom_headers(h, cs.drop_last());
        let ch = cs.last();
        if !is_locked_name(lower_seq(ch.0)) {
            match header_name_parse(ch.0) {
                Some(n) => {
                    if header_value_valid(ch.1) {
                        assert(n == lower_seq(ch.0));
                        assert(n != m);
                        lemma_values_set(prev, n, ch.1, m);
                    }
                },
                None => {},
            }
        }
    }
}

/// Custom headers applied first and security headers after: the security
/// values are the ones that remain, whatever the custom headers asked for.
pub proof fn lemma_custom_cannot_override_security(h: HeaderList, cs: Seq<(Seq<char>, Seq<char>)>, i: int)
    requires
        0 <= i < 5,
    ensures
        values_named(with_security_headers(with_custom_headers(h, cs)), security_headers()[i].0)
            == seq![security_headers()[i].1],
{
    lemma_security_headers_win(with_custom_headers(h, cs), i);
}

} // verus!
