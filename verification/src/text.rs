//! Character-level helpers shared by the gateway logic.
use vstd::prelude::*;
use vstd::string::*;

verus! {

/// ASCII lower-casing of one character; other characters are unchanged.
pub open spec fn ascii_lower(c: char) -> char {
    if 'A' <= c && c <= 'Z' {
        ((c as u32) + 32) as char
    } else {
        c
    }
}

/// ASCII lower-casing of a character sequence.
pub open spec fn lower_seq(s: Seq<char>) -> Seq<char> {
    s.map_values(|c: char| ascii_lower(c))
}

pub open spec fn starts_with(s: Seq<char>, p: Seq<char>) -> bool {
    p.len() <= s.len() && s.subrange(0, p.len() as int) == p
}

pub open spec fn ends_with(s: Seq<char>, p: Seq<char>) -> bool {
    p.len() <= s.len() && s.subrange(s.len() - p.len(), s.len() as int) == p
}

/// The characters of `s`, in order.
pub fn chars_of(s: &str) -> (v: Vec<char>)
    ensures
        v@ == s@,
{
    let mut v: Vec<char> = Vec::new();
    for c in it: s.chars()
        invariant
            v@ == it.seq().take(it.index() as int),
            it.seq() == s@,
    {
        v.push(c);
    }
    v
}

/// `String::push`: appends one character at the end.
#[verifier::external_body]
pub(crate) fn push_char(s: &mut String, c: char)
    ensures
        final(s)@ == old(s)@.push(c),
{
    s.push(c);
}

/// A string holding exactly the characters of `v`.
pub fn string_of(v: &[char]) -> (r: String)
    ensures
        r@ == v@,
{
    let mut r = String::new();
    for i in 0..v.len()
        invariant
            r@ == v@.take(i as int),
    {
        push_char(&mut r, v[i]);
        assert(v@.take(i as int).push(v@[i as int]) =~= v@.take(i + 1));
    }
    assert(v@.take(v@.len() as int) =~= v@);
    r
}

/// Lower-cases `c` when it is an ASCII upper-case letter.
pub fn lower_char(c: char) -> (r: char)
    ensures
        r == ascii_lower(c),
{
    if 'A' <= c && c <= 'Z' {
        let u: u8 = (c as u8) + 32;
        u as char
    } else {
        c
    }
}

/// Whether `p` is a prefix of `s`.
pub fn has_prefix(s: &[char], p: &[char]) -> (r: bool)
    ensures
        r == starts_with(s@, p@),
{
    if p.len() > s.len() {
        return false;
    }
    for i in 0..p.len()
        invariant
            p.len() <= s.len(),
            forall|j: int| 0 <= j < i ==> s@[j] == p@[j],
    {
        if s[i] != p[i] {
            assert(s@.subrange(0, p@.len() as int)[i as int] != p@[i as int]);
            return false;
        }
    }
    assert(s@.subrange(0, p@.len() as int) =~= p@);
    true
}

/// Whether `p` is a suffix of the ASCII lower-cased `s`.
pub fn has_suffix_lower(s: &[char], p: &[char]) -> (r: bool)
    ensures
        r == ends_with(lower_seq(s@), p@),
{
    if p.len() > s.len() {
        return false;
    }
    let off = s.len() - p.len();
    for i in 0..p.len()
        invariant
            p.len() <= s.len(),
            off == s.len() - p.len(),
            forall|j: int| 0 <= j < i ==> ascii_lower(s@[off + j]) == p@[j],
    {
        if lower_char(s[off + i]) != p[i] {
            assert(lower_seq(s@).subrange(off as int, s@.len() as int)[i as int] != p@[i as int]);
            return false;
        }
    }
    assert(lower_seq(s@).subrange(off as int, s@.len() as int) =~= p@);
    true
}

/// Whether `a` and `b` hold the same characters.
pub fn same_chars(a: &[char], b: &[char]) -> (r: bool)
    ensures
        r == (a@ == b@),
{
    if a.len() != b.len() {
        return false;
    }
    for i in 0..a.len()
        invariant
            a.len() == b.len(),
            forall|j: int| 0 <= j < i ==> a@[j] == b@[j],
    {
        if a[i] != b[i] {
            return false;
        }
    }
    assert(a@ =~= b@);
    true
}

/// Whether two strings hold the same characters.
pub fn str_eq(a: &str, b: &str) -> (r: bool)
    ensures
        r == (a@ == b@),
{
    let x = chars_of(a);
    let y = chars_of(b);
    same_chars(x.as_slice(), y.as_slice())
}

/// Appends the characters of `t` to `s`.
pub fn push_str(s: &mut String, t: &str)
    ensures
        final(s)@ == old(s)@ + t@,
{
    s.append(t);
}

/// `s` with its leading `c` characters removed.
pub open spec fn trim_start_char(s: Seq<char>, c: char) -> Seq<char>
    decreases s.len(),
{
    if s.len() > 0 && s[0] == c {
        trim_start_char(s.drop_first(), c)
    } else {
        s
    }
}

/// `s` with its trailing `c` characters removed.
pub open spec fn trim_end_char(s: Seq<char>, c: char) -> Seq<char>
    decreases s.len(),
{
    if s.len() > 0 && s.last() == c {
        trim_end_char(s.drop_last(), c)
    } else {
        s
    }
}

/// `s` with `c` removed from both ends.
pub open spec fn trim_both_char(s: Seq<char>, c: char) -> Seq<char> {
    trim_end_char(trim_start_char(s, c), c)
}

/// The position where the leading run of `c` ends.
proof fn lemma_trim_start_at(s: Seq<char>, c: char, k: int)
    requires
        0 <= k <= s.len(),
        forall|j: int| 0 <= j < k ==> s[j] == c,
    ensures
        trim_start_char(s, c) == trim_start_char(s.subrange(k, s.len() as int), c),
    decreases k,
{
    if k > 0 {
        assert(s.drop_first().subrange(k - 1, s.drop_first().len() as int) =~= s.subrange(k, s.len() as int));
        lemma_trim_start_at(s.drop_first(), c, k - 1);
    } else {
        assert(s.subrange(0, s.len() as int) =~= s);
    }
}

proof fn lemma_trim_end_at(s: Seq<char>, c: char, k: int)
    requires
        0 <= k <= s.len(),
        forall|j: int| k <= j < s.len() ==> s[j] == c,
    ensures
        trim_end_char(s, c) == trim_end_char(s.subrange(0, k), c),
    decreases s.len() - k,
{
    if k < s.len() {
        assert(s.drop_last().subrange(0, k) =~= s.subrange(0, k));
        lemma_trim_end_at(s.drop_last(), c, k);
    } else {
        assert(s.subrange(0, k) =~= s);
    }
}

/// The characters of `s` without leading `c`.
pub fn trim_start_chars(s: &[char], c: char) -> (r: Vec<char>)
    ensures
        r@ == trim_start_char(s@, c),
{
    let mut k: usize = 0;
    while k < s.len() && s[k] == c
        invariant
            k <= s.len(),
            forall|j: int| 0 <= j < k ==> s@[j] == c,
        decreases s.len() - k,
    {
        k = k + 1;
    }
    proof {
        lemma_trim_start_at(s@, c, k as int);
    }
    let mut r: Vec<char> = Vec::new();
    for i in k..s.len()
        invariant
            k <= i <= s.len(),
            r@ == s@.subrange(k as int, i as int),
    {
        r.push(s[i]);
        assert(r@ =~= s@.subrange(k as int, i + 1));
    }
    r
}

/// The characters of `s` without trailing `c`.
pub fn trim_end_chars(s: &[char], c: char) -> (r: Vec<char>)
    ensures
        r@ == trim_end_char(s@, c),
{
    let mut k: usize = s.len();
    while k > 0 && s[k - 1] == c
        invariant
            k <= s.len(),
            forall|j: int| k <= j < s.len() ==> s@[j] == c,
        decreases k,
    {
        k = k - 1;
    }
    proof {
        lemma_trim_end_at(s@, c, k as int);
    }
    let mut r: Vec<char> = Vec::new();
    for i in 0..k
        invariant
            k <= s.len(),
            r@ == s@.subrange(0, i as int),
    {
        r.push(s[i]);
        assert(r@ =~= s@.subrange(0, i + 1));
    }
    r
}

/// The characters of `s` without `c` at either end.
pub fn trim_both_chars(s: &[char], c: char) -> (r: Vec<char>)
    ensures
        r@ == trim_both_char(s@, c),
{
    let a = trim_start_chars(s, c);
    trim_end_chars(a.as_slice(), c)
}

pub open spec fn is_digit(c: char) -> bool {
    '0' <= c && c <= '9'
}

/// The number written by the decimal digits `d`.
pub open spec fn decimal_value(d: Seq<char>) -> nat
    decreases d.len(),
{
    if d.len() == 0 {
        0
    } else {
        decimal_value(d.drop_last()) * 10 + ((d.last() as u32) - 48) as nat
    }
}

/// The digits part of a number: without one leading `+`.
pub open spec fn unsigned_digits(s: Seq<char>) -> Seq<char> {
    if s.len() > 0 && s[0] == '+' {
        s.drop_first()
    } else {
        s
    }
}

pub open spec fn all_digits(d: Seq<char>) -> bool {
    forall|i: int| 0 <= i < d.len() ==> is_digit(#[trigger] d[i])
}

/// What parsing an unsigned 64-bit decimal number gives: an optional `+`,
/// then one or more digits whose value fits; nothing otherwise.
pub open spec fn parse_u64_of(s: Seq<char>) -> Option<u64> {
    let d = unsigned_digits(s);
    if d.len() > 0 && all_digits(d) && decimal_value(d) <= u64::MAX {
        Some(decimal_value(d) as u64)
    } else {
        None
    }
}

proof fn lemma_decimal_grows(d: Seq<char>, k: int)
    requires
        0 <= k <= d.len(),
        forall|i: int| 0 <= i < d.len() ==> is_digit(#[trigger] d[i]),
    ensures
        decimal_value(d.take(k)) <= decimal_value(d),
    decreases d.len() - k,
{
    if k < d.len() {
        lemma_decimal_grows(d, k + 1);
        assert(d.take(k + 1).drop_last() =~= d.take(k));
        assert(decimal_value(d.take(k + 1)) >= decimal_value(d.take(k)));
    } else {
        assert(d.take(k) =~= d);
    }
}

/// Parses an unsigned 64-bit decimal number, as `str::parse::<u64>` does.
pub fn parse_u64(s: &str) -> (r: Option<u64>)
    ensures
        r == parse_u64_of(s@),
{
    let cs = chars_of(s);
    let start: usize = if cs.len() > 0 && cs[0] == '+' {
        1
    } else {
        0
    };
    let ghost d = unsigned_digits(s@);
    assert(d =~= cs@.subrange(start as int, cs@.len() as int));
    if start >= cs.len() {
        return None;
    }
    let mut v: u64 = 0;
    for i in start..cs.len()
        invariant
            cs@ == s@,
            start <= i <= cs@.len(),
            d == cs@.subrange(start as int, cs@.len() as int),
            d == unsigned_digits(s@),
            forall|j: int| 0 <= j < i - start ==> is_digit(#[trigger] d[j]),
            v as nat == decimal_value(d.take(i - start)),
    {
        let c = cs[i];
        assert(d[i - start] == c);
        if !('0' <= c && c <= '9') {
            assert(!is_digit(d[i - start]));
            assert(!all_digits(d));
            return None;
        }
        assert(d.take(i - start + 1).last() == c);
        assert(d.take(i - start + 1).drop_last() =~= d.take(i - start));
        let digit: u64 = (c as u32 - 48) as u64;
        assert(decimal_value(d.take(i - start + 1)) == decimal_value(d.take(i - start)) * 10 + digit);
        match v.checked_mul(10) {
            Some(m) => match m.checked_add(digit) {
                Some(n) => {
                    v = n;
                },
                None => {
                    proof {
                        if all_digits(d) {
                            lemma_decimal_grows(d, i - start + 1);
                        }
                    }
                    return None;
                },
            },
            None => {
                proof {
                    if forall|j: int| 0 <= j < d.len() ==> is_digit(#[trigger] d[j]) {
                        lemma_decimal_grows(d, i - start + 1);
                    }
                }
                return None;
            },
        }
    }
    assert(d.take(d.len() as int) =~= d);
    Some(v)
}

/// `s` with every occurrence of `pat` replaced by `rep`, left to right and
/// without overlaps.
pub open spec fn replace_all(s: Seq<char>, pat: Seq<char>, rep: Seq<char>) -> Seq<char>
    decreases s.len(),
{
    if pat.len() == 0 || s.len() < pat.len() {
        s
    } else if s.take(pat.len() as int) == pat {
        rep + replace_all(s.skip(pat.len() as int), pat, rep)
    } else {
        seq![s[0]] + replace_all(s.drop_first(), pat, rep)
    }
}

/// `s` with its first occurrence of `pat` replaced by `rep`.
pub open spec fn replace_first(s: Seq<char>, pat: Seq<char>, rep: Seq<char>) -> Seq<char>
    decreases s.len(),
{
    if pat.len() == 0 || s.len() < pat.len() {
        s
    } else if s.take(pat.len() as int) == pat {
        rep + s.skip(pat.len() as int)
    } else {
        seq![s[0]] + replace_first(s.drop_first(), pat, rep)
    }
}

/// Whether `pat` occurs in `s`.
pub open spec fn contains_seq(s: Seq<char>, pat: Seq<char>) -> bool {
    exists|i: int| 0 <= i && i + pat.len() <= s.len() && #[trigger] s.subrange(i, i + pat.len()) == pat
}

/// Whether `pat` starts at position `i` of `s`.
fn occurs_at(s: &[char], pat: &[char], i: usize) -> (r: bool)
    requires
        i <= s.len(),
    ensures
        r == (pat.len() <= s.len() - i && s@.subrange(i as int, i + pat.len()) == pat@),
{
    if pat.len() > s.len() - i {
        return false;
    }
    for j in 0..pat.len()
        invariant
            i + pat.len() <= s.len(),
            forall|k: int| 0 <= k < j ==> s@[i + k] == pat@[k],
    {
        if s[i + j] != pat[j] {
            assert(s@.subrange(i as int, i + pat.len())[j as int] != pat@[j as int]);
            return false;
        }
    }
    assert(s@.subrange(i as int, i + pat.len()) =~= pat@);
    true
}

/// Replaces every occurrence of `pat` in `s` by `rep`, as `str::replace`.
pub fn replace_all_chars(s: &[char], pat: &[char], rep: &[char]) -> (r: Vec<char>)
    requires
        pat.len() > 0,
    ensures
        r@ == replace_all(s@, pat@, rep@),
{
    let mut out: Vec<char> = Vec::new();
    let mut i: usize = 0;
    assert(s@.skip(0) =~= s@);
    assert(out@ + replace_all(s@, pat@, rep@) =~= replace_all(s@, pat@, rep@));
    while i < s.len()
        invariant
            pat@.len() > 0,
            i <= s.len(),
            out@ + replace_all(s@.skip(i as int), pat@, rep@) == replace_all(s@, pat@, rep@),
        decreases s.len() - i,
    {
        let ghost rest = s@.skip(i as int);
        if occurs_at(s, pat, i) {
            assert(rest.take(pat@.len() as int) =~= s@.subrange(i as int, i + pat@.len()));
            assert(rest.skip(pat@.len() as int) =~= s@.skip(i + pat@.len()));
            let ghost before = out@;
            for k in 0..rep.len()
                invariant
                    out@ == before + rep@.take(k as int),
            {
                out.push(rep[k]);
                assert(out@ =~= before + rep@.take(k + 1));
            }
            assert(rep@.take(rep@.len() as int) =~= rep@);
            assert(out@ + replace_all(s@.skip(i + pat@.len()), pat@, rep@) =~= before + replace_all(
                rest,
                pat@,
                rep@,
            ));
            i = i + pat.len();
        } else {
            proof {
                if rest.len() >= pat@.len() {
                    assert(rest.take(pat@.len() as int) =~= s@.subrange(i as int, i + pat@.len()));
                }
            }
            assert(rest.drop_first() =~= s@.skip(i + 1));
            let ghost before = out@;
            out.push(s[i]);
            assert(out@ + replace_all(s@.skip(i + 1), pat@, rep@) =~= before + replace_all(rest, pat@, rep@));
            i = i + 1;
        }
    }
    assert(s@.skip(s@.len() as int) =~= Seq::<char>::empty());
    assert(out@ + replace_all(s@.skip(i as int), pat@, rep@) =~= out@);
    out
}

/// Replaces the first occurrence of `pat` in `s` by `rep`, as
/// `str::replacen` with a count of one.
pub fn replace_first_chars(s: &[char], pat: &[char], rep: &[char]) -> (r: Vec<char>)
    requires
        pat.len() > 0,
    ensures
        r@ == replace_first(s@, pat@, rep@),
{
    let mut out: Vec<char> = Vec::new();
    let mut i: usize = 0;
    assert(s@.skip(0) =~= s@);
    assert(out@ + replace_first(s@, pat@, rep@) =~= replace_first(s@, pat@, rep@));
    while i < s.len()
        invariant
            pat@.len() > 0,
            i <= s.len(),
            out@ + replace_first(s@.skip(i as int), pat@, rep@) == replace_first(s@, pat@, rep@),
        decreases s.len() - i,
    {
        let ghost rest = s@.skip(i as int);
        if occurs_at(s, pat, i) {
            assert(rest.take(pat@.len() as int) =~= s@.subrange(i as int, i + pat@.len()));
            let ghost before = out@;
            for k in 0..rep.len()
                invariant
                    out@ == before + rep@.take(k as int),
            {
                out.push(rep[k]);
                assert(out@ =~= before + rep@.take(k + 1));
            }
            assert(rep@.take(rep@.len() as int) =~= rep@);
            let ghost mid = out@;
            for k in i + pat.len()..s.len()
                invariant
                    i + pat@.len() <= k <= s@.len(),
                    out@ == mid + s@.subrange(i + pat@.len(), k as int),
            {
                out.push(s[k]);
                assert(out@ =~= mid + s@.subrange(i + pat@.len(), k + 1));
            }
            assert(rest.skip(pat@.len() as int) =~= s@.subrange(i + pat@.len(), s@.len() as int));
            assert(out@ =~= before + replace_first(rest, pat@, rep@));
            assert(replace_first(s@.skip(s@.len() as int), pat@, rep@) =~= Seq::<char>::empty());
            assert(out@ + replace_first(s@.skip(s@.len() as int), pat@, rep@) =~= out@);
            return out;
        } else {
            proof {
                if rest.len() >= pat@.len() {
                    assert(rest.take(pat@.len() as int) =~= s@.subrange(i as int, i + pat@.len()));
                }
            }
            assert(rest.drop_first() =~= s@.skip(i + 1));
            let ghost before = out@;
            out.push(s[i]);
            assert(out@ + replace_first(s@.skip(i + 1), pat@, rep@) =~= before + replace_first(
                rest,
                pat@,
                rep@,
            ));
            i = i + 1;
        }
    }
    assert(s@.skip(s@.len() as int) =~= Seq::<char>::empty());
    assert(out@ + replace_first(s@.skip(i as int), pat@, rep@) =~= out@);
    out
}

/// Whether `pat` occurs in `s`.
pub fn has_substring(s: &[char], pat: &[char]) -> (r: bool)
    ensures
        r == contains_seq(s@, pat@),
{
    if pat.len() > s.len() {
        return false;
    }
    let last = s.len() - pat.len();
    let mut i: usize = 0;
    while i <= last
        invariant
            pat.len() <= s.len(),
            last == s.len() - pat.len(),
            i <= last,
            forall|k: int| 0 <= k < i ==> #[trigger] s@.subrange(k, k + pat@.len()) != pat@,
        ensures
            forall|k: int| 0 <= k <= last ==> #[trigger] s@.subrange(k, k + pat@.len()) != pat@,
        decreases last + 1 - i,
    {
        if occurs_at(s, pat, i) {
            assert(s@.subrange(i as int, i + pat@.len()) == pat@);
            return true;
        }
        if i == last {
            break;
        }
        i = i + 1;
    }
    assert forall|k: int| 0 <= k && k + pat@.len() <= s@.len() implies #[trigger] s@.subrange(
        k,
        k + pat@.len(),
    ) != pat@ by {}
    false
}

} // verus!
