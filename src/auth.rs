use vstd::prelude::*;
use vstd::string::StrSliceExecFns;

use crate::command::word_is;

verus! {

/// `p` occurs in `s` as a run of consecutive characters.
pub open spec fn has_substring(s: Seq<char>, p: Seq<char>) -> bool {
    exists|i: int| 0 <= i && i + p.len() <= s.len() && #[trigger] s.subrange(i, i + p.len()) == p
}

/// Whether `s` contains `p`, as `str::contains` answers it for a `&str` pattern.
pub fn contains_str(s: &str, p: &str) -> (r: bool)
    ensures
        r == has_substring(s@, p@),
{
    let n = s.unicode_len();
    let m = p.unicode_len();
    if m > n {
        return false;
    }
    let mut i: usize = 0;
    loop
        invariant
            n == s@.len(),
            m == p@.len(),
            m <= n,
            i <= n - m,
            forall|j: int| 0 <= j < i ==> #[trigger] s@.subrange(j, j + m) != p@,
        ensures
            i == n - m,
            forall|j: int| 0 <= j <= i ==> #[trigger] s@.subrange(j, j + m) != p@,
        decreases n - m - i,
    {
        if word_is(s, i, i + m, p) {
            return true;
        }
        if i == n - m {
            break;
        }
        i = i + 1;
    }
    assert forall|j: int| 0 <= j && j + p@.len() <= s@.len() implies #[trigger] s@.subrange(
        j,
        j + p@.len(),
    ) != p@ by {
        assert(j <= i);
    }
    false
}

/// The scopes a token must grant for reading threads and bumping them.
pub open spec fn scopes_ok(scope: Seq<char>) -> bool {
    has_substring(scope, "read"@) && has_substring(scope, "post"@)
}

/// Whether the token's `scope` claim grants both `read` and `post`.
pub fn has_required_scopes(scope: &str) -> (r: bool)
    ensures
        r == scopes_ok(scope@),
{
    contains_str(scope, "read") && contains_str(scope, "post")
}

} // verus!
