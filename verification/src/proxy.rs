//! How a proxied request is addressed upstream, and which headers its
//! response carries back.
use vstd::prelude::*;
use vstd::string::*;
use crate::headers::{
    apply_custom_headers, apply_security_headers, cache_control_for, cache_control_value,
    custom_pairs, is_token_char, lemma_custom_header_applied, lemma_security_headers_leave_others,
    lemma_security_headers_win, not_security_name, security_headers, values_named, with_custom_headers,
    with_security_headers, HeaderList, HeaderSet,
};
use crate::state::CustomHeader;
use crate::text::{
    chars_of, contains_seq, lower_seq, has_prefix, has_substring, push_char, push_str, starts_with, string_of,
    trim_end_char, trim_end_chars, trim_start_char, trim_start_chars,
};

verus! {

/// `s` without the prefix `p` when it starts with it, else `s` itself.
pub open spec fn strip_prefix_or_self(s: Seq<char>, p: Seq<char>) -> Seq<char> {
    if starts_with(s, p) {
        s.subrange(p.len() as int, s.len() as int)
    } else {
        s
    }
}

/// The `?query` part of a URL, empty without a query.
pub open spec fn query_suffix(query: Option<Seq<char>>) -> Seq<char> {
    match query {
        Some(q) => seq!['?'] + q,
        None => Seq::empty(),
    }
}

/// The upstream URL of a request: the target without trailing `/`, then
/// `/`, then the path after the matched prefix without leading `/`, then
/// the query.
pub open spec fn upstream_url_for(
    path: Seq<char>,
    query: Option<Seq<char>>,
    prefix: Seq<char>,
    target: Seq<char>,
) -> Seq<char> {
    trim_end_char(target, '/') + seq!['/'] + trim_start_char(strip_prefix_or_self(path, prefix), '/')
        + query_suffix(query)
}

/// The URL a request for `path` is sent to, given the matched route.
pub fn upstream_url(path: &str, query: Option<&str>, prefix: &str, target_url: &str) -> (r: String)
    ensures
        r@ == upstream_url_for(
            path@,
            match query {
                Some(q) => Some(q@),
                None => None,
            },
            prefix@,
            target_url@,
        ),
{
    let p = chars_of(path);
    let pre = chars_of(prefix);
    let mut stripped: Vec<char> = Vec::new();
    if has_prefix(p.as_slice(), pre.as_slice()) {
        for i in pre.len()..p.len()
            invariant
                pre@.len() <= i <= p@.len(),
                stripped@ == p@.subrange(pre@.len() as int, i as int),
        {
            stripped.push(p[i]);
            assert(stripped@ =~= p@.subrange(pre@.len() as int, i + 1));
        }
    } else {
        for i in 0..p.len()
            invariant
                stripped@ == p@.subrange(0, i as int),
        {
            stripped.push(p[i]);
            assert(stripped@ =~= p@.subrange(0, i + 1));
        }
        assert(p@.subrange(0, p@.len() as int) =~= p@);
    }
    let rest = trim_start_chars(stripped.as_slice(), '/');
    let t = chars_of(target_url);
    let base = trim_end_chars(t.as_slice(), '/');
    let mut r = string_of(base.as_slice());
    push_char(&mut r, '/');
    let rs = string_of(rest.as_slice());
    push_str(&mut r, rs.as_str());
    match query {
        Some(q) => {
            push_char(&mut r, '?');
            push_str(&mut r, q);
        },
        None => {},
    }
    proof {
        let qv = match query {
            Some(q) => Some(q@),
            None => None,
        };
        assert(r@ =~= upstream_url_for(path@, qv, prefix@, target_url@));
    }
    r
}

/// The upstream headers followed by `cache-control`, and by
/// `pragma: no-cache` when that value forbids storing.
pub open spec fn with_cache_headers(upstream: HeaderList, path: Seq<char>) -> HeaderList {
    let with_cc = upstream.push(("cache-control"@, cache_control_for(path)));
    if contains_seq(cache_control_for(path), "no-store"@) {
        with_cc.push(("pragma"@, "no-cache"@))
    } else {
        with_cc
    }
}

/// The headers of a proxied response: the upstream ones, the cache
/// headers for the path, then the custom headers, then the security
/// headers.
pub open spec fn proxied_headers(upstream: HeaderList, path: Seq<char>, custom: Seq<CustomHeader>) -> HeaderList {
    with_security_headers(with_custom_headers(with_cache_headers(upstream, path), custom_pairs(custom)))
}

/// Completes the headers of a proxied response.
pub fn proxied_response_headers(headers: &mut HeaderSet, path: &str, custom_headers: &[CustomHeader])
    ensures
        final(headers)@ == proxied_headers(old(headers)@, path@, custom_headers@),
{
    let cc = cache_control_value(path);
    headers.append("cache-control", cc);
    let ccc = chars_of(cc);
    let ns = chars_of("no-store");
    if has_substring(ccc.as_slice(), ns.as_slice()) {
        headers.append("pragma", "no-cache");
    }
    apply_custom_headers(headers, custom_headers);
    apply_security_headers(headers);
}

/// Whatever the upstream sent and whatever the custom headers ask for, a
/// proxied response carries each security header once, with its fixed
/// value.
pub proof fn lemma_proxied_security_headers(upstream: HeaderList, path: Seq<char>, custom: Seq<CustomHeader>, i: int)
    requires
        0 <= i < 5,
    ensures
        values_named(proxied_headers(upstream, path, custom), security_headers()[i].0) == seq![
            security_headers()[i].1,
        ],
{
    lemma_security_headers_win(with_custom_headers(with_cache_headers(upstream, path), custom_pairs(custom)), i);
}

/// The operator's custom headers reach every proxied response: a custom
/// header with a valid name that is not a security name and a valid value,
/// and that no later custom header of the same lower-cased name follows,
/// is carried under its lower-cased name with exactly its value.
pub proof fn lemma_custom_headers_reach_response(
    upstream: HeaderList,
    path: Seq<char>,
    custom: Seq<CustomHeader>,
    i: int,
)
    requires
        0 <= i < custom.len(),
        not_security_name(lower_seq(custom[i].name@)),
        1 <= custom[i].name@.len() <= 65535,
        forall|k: int| 0 <= k < custom[i].name@.len() ==> is_token_char(#[trigger] custom[i].name@[k]),
        forall|k: int|
            0 <= k < custom[i].value@.len() ==> (#[trigger] custom[i].value@[k] == '\t' || (custom[i].value@[k]
                as u32 >= 32 && custom[i].value@[k] as u32 != 127)),
        forall|j: int| i < j < custom.len() ==> lower_seq(#[trigger] custom[j].name@) != lower_seq(custom[i].name@),
    ensures
        values_named(proxied_headers(upstream, path, custom), lower_seq(custom[i].name@)) == seq![custom[i].value@],
{
    let cs = custom_pairs(custom);
    let n = lower_seq(custom[i].name@);
    assert(cs[i] == (custom[i].name@, custom[i].value@));
    assert forall|j: int| i < j < cs.len() implies lower_seq(#[trigger] cs[j].0) != lower_seq(cs[i].0) by {
        assert(cs[j] == (custom[j].name@, custom[j].value@));
    }
    let with_cache = with_cache_headers(upstream, path);
    lemma_custom_header_applied(with_cache, cs, i);
    lemma_security_headers_leave_others(with_custom_headers(with_cache, cs), n);
}

/// The characters that `str::trim` removes: Unicode white space.
pub open spec fn is_white_space(c: char) -> bool {
    ||| ('\u{9}' <= c && c <= '\u{d}')
    ||| c == ' ' || c == '\u{85}' || c == '\u{a0}' || c == '\u{1680}'
    ||| ('\u{2000}' <= c && c <= '\u{200a}')
    ||| c == '\u{2028}' || c == '\u{2029}' || c == '\u{202f}' || c == '\u{205f}' || c == '\u{3000}'
}

/// `s` without white space at either end.
pub open spec fn trim_white(s: Seq<char>) -> Seq<char>
    decreases s.len(),
{
    if s.len() > 0 && is_white_space(s[0]) {
        trim_white(s.drop_first())
    } else if s.len() > 0 && is_white_space(s.last()) {
        trim_white(s.drop_last())
    } else {
        s
    }
}

/// The part of `s` after its last comma; all of `s` without a comma.
pub open spec fn after_last_comma(s: Seq<char>) -> Seq<char>
    decreases s.len(),
{
    if s.len() == 0 {
        s
    } else if s.last() == ',' {
        Seq::empty()
    } else {
        after_last_comma(s.drop_last()).push(s.last())
    }
}

fn is_white(c: char) -> (r: bool)
    ensures
        r == is_white_space(c),
{
    ('\u{9}' <= c && c <= '\u{d}') || c == ' ' || c == '\u{85}' || c == '\u{a0}' || c == '\u{1680}' || (
    '\u{2000}' <= c && c <= '\u{200a}') || c == '\u{2028}' || c == '\u{2029}' || c == '\u{202f}' || c
        == '\u{205f}' || c == '\u{3000}'
}

proof fn lemma_trim_white_range(s: Seq<char>, a: int, b: int)
    requires
        0 <= a <= b <= s.len(),
        forall|j: int| 0 <= j < a ==> is_white_space(#[trigger] s[j]),
        forall|j: int| b <= j < s.len() ==> is_white_space(#[trigger] s[j]),
        a < b ==> !is_white_space(s[a]) && !is_white_space(s[b - 1]),
        a == b ==> b == s.len(),
    ensures
        trim_white(s) == s.subrange(a, b),
    decreases s.len(),
{
    if s.len() > 0 && is_white_space(s[0]) {
        if a == 0 {
            assert(a == b);
        }
        let t = s.drop_first();
        lemma_trim_white_range(t, a - 1, b - 1);
        assert(t.subrange(a - 1, b - 1) =~= s.subrange(a, b));
    } else if s.len() > 0 && is_white_space(s.last()) {
        if b == s.len() {
            assert(a < b ==> !is_white_space(s[b - 1]));
            assert(a == b ==> a == 0);
        }
        let t = s.drop_last();
        lemma_trim_white_range(t, a, b - if a == b { 1int } else { 0 });
        if a == b {
            assert(s.subrange(a, b) =~= Seq::<char>::empty());
            assert(t.subrange(a, b - 1) =~= Seq::<char>::empty());
        } else {
            assert(t.subrange(a, b) =~= s.subrange(a, b));
        }
    } else {
        if s.len() > 0 {
            assert(a == 0);
            assert(b == s.len());
        }
        assert(s.subrange(a, b) =~= s);
    }
}

proof fn lemma_after_last_comma(s: Seq<char>, k: int)
    requires
        0 <= k <= s.len(),
        k > 0 ==> s[k - 1] == ',',
        forall|j: int| k <= j < s.len() ==> s[j] != ',',
    ensures
        after_last_comma(s) == s.subrange(k, s.len() as int),
    decreases s.len(),
{
    if s.len() > 0 {
        if s.last() == ',' {
            assert(k == s.len());
        } else {
            lemma_after_last_comma(s.drop_last(), k);
            assert(s.drop_last().subrange(k, s.len() - 1).push(s.last()) =~= s.subrange(k, s.len() as int));
        }
    } else {
        assert(s.subrange(k, s.len() as int) =~= s);
    }
}

/// The client address that an `X-Forwarded-For` value names: its last
/// comma-separated entry, without surrounding white space.
pub fn forwarded_client(header: &str) -> (r: String)
    ensures
        r@ == trim_white(after_last_comma(header@)),
{
    let cs = chars_of(header);
    let mut k: usize = cs.len();
    while k > 0 && cs[k - 1] != ','
        invariant
            k <= cs.len(),
            forall|j: int| k <= j < cs@.len() ==> cs@[j] != ',',
        decreases k,
    {
        k = k - 1;
    }
    proof {
        lemma_after_last_comma(cs@, k as int);
    }
    let ghost seg = cs@.subrange(k as int, cs@.len() as int);
    let mut a: usize = k;
    while a < cs.len() && is_white(cs[a])
        invariant
            k <= a <= cs.len(),
            forall|j: int| k <= j < a ==> is_white_space(#[trigger] cs@[j]),
        decreases cs.len() - a,
    {
        a = a + 1;
    }
    let mut b: usize = cs.len();
    while b > a && is_white(cs[b - 1])
        invariant
            a <= b <= cs.len(),
            forall|j: int| b <= j < cs.len() ==> is_white_space(#[trigger] cs@[j]),
        decreases b - a,
    {
        b = b - 1;
    }
    proof {
        if a == b && b < cs@.len() {
            assert(a == cs@.len() || !is_white_space(cs@[a as int]));
            assert(false);
        }
        assert forall|j: int| 0 <= j < a - k implies is_white_space(#[trigger] seg[j]) by {
            assert(seg[j] == cs@[k + j]);
        }
        assert forall|j: int| b - k <= j < seg.len() implies is_white_space(#[trigger] seg[j]) by {
            assert(seg[j] == cs@[k + j]);
        }
        lemma_trim_white_range(seg, a - k, b - k);
        assert(seg.subrange(a - k, b - k) =~= cs@.subrange(a as int, b as int));
    }
    let mut out: Vec<char> = Vec::new();
    for i in a..b
        invariant
            a <= i <= b,
            b <= cs.len(),
            out@ == cs@.subrange(a as int, i as int),
    {
        out.push(cs[i]);
        assert(out@ =~= cs@.subrange(a as int, i + 1));
    }
    string_of(out.as_slice())
}

} // verus!
