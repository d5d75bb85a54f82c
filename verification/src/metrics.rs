//! Low-cardinality labels for request metrics.
use vstd::prelude::*;
use crate::text::{chars_of, has_prefix, same_chars, starts_with};

verus! {

/// The fixed pattern that a path is counted under.
pub open spec fn path_pattern_of(path: Seq<char>) -> Seq<char> {
    if starts_with(path, "/api/"@) {
        "/api/*"@
    } else if starts_with(path, "/remotes/"@) {
        "/remotes/:name/*"@
    } else if starts_with(path, "/host/"@) {
        "/host/*"@
    } else if path == "/ws"@ {
        "/ws"@
    } else if starts_with(path, "/assets/"@) {
        "/assets/*"@
    } else {
        "other"@
    }
}

/// Coarsens a path to a fixed set of patterns to keep label cardinality low.
pub fn path_pattern(path: &str) -> (r: &'static str)
    ensures
        r@ == path_pattern_of(path@),
{
    let p = chars_of(path);
    let api = chars_of("/api/");
    let remotes = chars_of("/remotes/");
    let host = chars_of("/host/");
    let ws = chars_of("/ws");
    let assets = chars_of("/assets/");
    if has_prefix(p.as_slice(), api.as_slice()) {
        "/api/*"
    } else if has_prefix(p.as_slice(), remotes.as_slice()) {
        "/remotes/:name/*"
    } else if has_prefix(p.as_slice(), host.as_slice()) {
        "/host/*"
    } else if same_chars(p.as_slice(), ws.as_slice()) {
        "/ws"
    } else if has_prefix(p.as_slice(), assets.as_slice()) {
        "/assets/*"
    } else {
        "other"
    }
}

/// The class of an HTTP status code: `2xx`, `3xx`, `4xx`, or `5xx` for
/// everything else.
pub open spec fn status_class_of(code: u16) -> Seq<char> {
    if code / 100 == 2 {
        "2xx"@
    } else if code / 100 == 3 {
        "3xx"@
    } else if code / 100 == 4 {
        "4xx"@
    } else {
        "5xx"@
    }
}

/// The class label of a status code.
pub fn status_class(code: u16) -> (r: &'static str)
    ensures
        r@ == status_class_of(code),
{
    match code / 100 {
        2 => "2xx",
        3 => "3xx",
        4 => "4xx",
        _ => "5xx",
    }
}

} // verus!
