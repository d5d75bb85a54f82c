//! The single-page shell served for paths that no route takes.
use vstd::prelude::*;
use vstd::string::*;
use crate::text::{
    chars_of, contains_seq, push_str, replace_all, replace_all_chars, replace_first, replace_first_chars,
    string_of,
};

verus! {

/// The page with the gateway configuration injected before `</head>`: the
/// ready shell when the host has a remote entry, the waiting page
/// otherwise; `</` in the configuration is escaped as `<\/` so that it
/// cannot close the script.
pub open spec fn spa_page(index: Seq<char>, not_ready: Seq<char>, remote_entry: Seq<char>, config_json: Seq<char>) -> Seq<char> {
    let template = if remote_entry.len() > 0 {
        index
    } else {
        not_ready
    };
    let script = "<script>window.__NEXUS_GATEWAY_CONFIG__ = "@ + replace_all(config_json, "</"@, "<\\/"@)
        + ";</script>"@;
    replace_first(template, "</head>"@, script + "\n</head>"@)
}

/// No `<` directly followed by `/` anywhere in `s`.
pub open spec fn no_close_mark(s: Seq<char>) -> bool {
    forall|i: int| 0 <= i < s.len() - 1 ==> !(#[trigger] s[i] == '<' && s[i + 1] == '/')
}

proof fn lemma_escape_keeps_first(t: Seq<char>)
    requires
        t.len() > 0,
    ensures
        replace_all(t, seq!['<', '/'], seq!['<', '\\', '/']).len() > 0,
        replace_all(t, seq!['<', '/'], seq!['<', '\\', '/'])[0] == t[0],
{
    let p = seq!['<', '/'];
    if t.len() >= 2 && t.take(2) == p {
        assert(t[0] == t.take(2)[0]);
    }
}

proof fn lemma_escape_has_no_close(s: Seq<char>)
    ensures
        no_close_mark(replace_all(s, seq!['<', '/'], seq!['<', '\\', '/'])),
    decreases s.len(),
{
    let p = seq!['<', '/'];
    let r = seq!['<', '\\', '/'];
    let e = replace_all(s, p, r);
    if s.len() < 2 {
    } else if s.take(2) == p {
        let t = s.skip(2);
        lemma_escape_has_no_close(t);
        let et = replace_all(t, p, r);
        assert(e == r + et);
        assert forall|i: int| 0 <= i < e.len() - 1 implies !(#[trigger] e[i] == '<' && e[i + 1] == '/') by {
            if i >= 3 {
                assert(e[i] == et[i - 3] && e[i + 1] == et[i - 2]);
            }
        }
    } else {
        let t = s.drop_first();
        lemma_escape_has_no_close(t);
        lemma_escape_keeps_first(t);
        let et = replace_all(t, p, r);
        assert(e == seq![s[0]] + et);
        assert(!(s[0] == '<' && s[1] == '/')) by {
            if s[0] == '<' && s[1] == '/' {
                assert(s.take(2) =~= p);
            }
        }
        assert forall|i: int| 0 <= i < e.len() - 1 implies !(#[trigger] e[i] == '<' && e[i + 1] == '/') by {
            if i >= 1 {
                assert(e[i] == et[i - 1] && e[i + 1] == et[i]);
            } else {
                assert(e[1] == et[0] && et[0] == t[0] && t[0] == s[1]);
            }
        }
    }
}

/// The configuration injected into the page can never close the script
/// that holds it: after escaping, no `</` is left in it.
pub proof fn lemma_injected_config_cannot_close_script(config_json: Seq<char>)
    ensures
        !contains_seq(replace_all(config_json, "</"@, "<\\/"@), "</"@),
{
    reveal_strlit("</");
    reveal_strlit("<\\/");
    assert("</"@ =~= seq!['<', '/']);
    assert("<\\/"@ =~= seq!['<', '\\', '/']);
    let e = replace_all(config_json, seq!['<', '/'], seq!['<', '\\', '/']);
    lemma_escape_has_no_close(config_json);
    if contains_seq(e, "</"@) {
        let i = choose|i: int| 0 <= i && i + 2 <= e.len() && #[trigger] e.subrange(i, i + 2) == "</"@;
        assert(e.subrange(i, i + 2)[0] == e[i] && e.subrange(i, i + 2)[1] == e[i + 1]);
    }
}

/// Renders the shell page with the configuration `config_json`.
pub fn render_spa(index_html: &str, not_ready_html: &str, host_remote_entry: &str, config_json: &str) -> (r: String)
    ensures
        r@ == spa_page(index_html@, not_ready_html@, host_remote_entry@, config_json@),
{
    let template = if !host_remote_entry.is_empty() {
        index_html
    } else {
        not_ready_html
    };
    let cfg = chars_of(config_json);
    let close = chars_of("</");
    let escaped_close = chars_of("<\\/");
    proof {
        reveal_strlit("</");
    }
    let escaped = replace_all_chars(cfg.as_slice(), close.as_slice(), escaped_close.as_slice());
    let mut insert = String::from_str("<script>window.__NEXUS_GATEWAY_CONFIG__ = ");
    let es = string_of(escaped.as_slice());
    push_str(&mut insert, es.as_str());
    push_str(&mut insert, ";</script>");
    push_str(&mut insert, "\n</head>");
    let t = chars_of(template);
    let head = chars_of("</head>");
    let ins = chars_of(insert.as_str());
    proof {
        reveal_strlit("</head>");
    }
    let page = replace_first_chars(t.as_slice(), head.as_slice(), ins.as_slice());
    string_of(page.as_slice())
}

} // verus!
