//! Token check of the protection management endpoints.
use vstd::prelude::*;
use vstd::string::*;

verus! {

/// Whether two byte strings are equal, looking at every byte whenever the
/// lengths agree (no early exit on the first difference).
pub fn constant_time_eq(a: &[u8], b: &[u8]) -> (r: bool)
    ensures
        r == (a@ == b@),
{
    if a.len() != b.len() {
        return false;
    }
    let mut diff: u8 = 0;
    for i in 0..a.len()
        invariant
            a.len() == b.len(),
            (diff == 0) == (forall|j: int| 0 <= j < i ==> a@[j] == b@[j]),
    {
        let x = a[i];
        let y = b[i];
        let d = diff;
        assert((d | (x ^ y)) == 0 <==> (d == 0 && x == y)) by (bit_vector);
        diff = d | (x ^ y);
    }
    assert(diff == 0 ==> a@ =~= b@);
    diff == 0
}

/// A management request is allowed when a token is configured and the
/// given token has exactly its bytes.
pub fn is_authed(token: &str, expected: &str) -> (r: bool)
    ensures
        r == (expected@.len() > 0 && token.spec_bytes() == expected.spec_bytes()),
{
    !expected.is_empty() && constant_time_eq(token.as_bytes(), expected.as_bytes())
}

} // verus!
