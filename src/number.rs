use vstd::prelude::*;
use vstd::string::StrSliceExecFns;

verus! {

/// An ASCII digit, `'0'` (code point 48) to `'9'` (57).
pub open spec fn is_digit(c: char) -> bool {
    48 <= (c as u32) && (c as u32) <= 57
}

/// The value of a run of decimal digits.
pub open spec fn digits_value(s: Seq<char>) -> nat
    decreases s.len(),
{
    if s.len() == 0 {
        0
    } else {
        digits_value(s.drop_last()) * 10 + ((s.last() as u32) - 48) as nat
    }
}

/// The digits after an optional sign.
pub open spec fn unsigned_part(s: Seq<char>) -> Seq<char> {
    if s.len() > 0 && (s[0] == '-' || s[0] == '+') {
        s.drop_first()
    } else {
        s
    }
}

/// What `str::parse::<i64>` gives: an optional `+` or `-`, then one or more
/// ASCII digits, whose signed value fits in an `i64`.
pub open spec fn parse_i64_spec(s: Seq<char>) -> Option<i64> {
    let d = unsigned_part(s);
    let neg = s.len() > 0 && s[0] == '-';
    if d.len() == 0 || !(forall|i: int| 0 <= i < d.len() ==> is_digit(#[trigger] d[i])) {
        None
    } else {
        let v: int = if neg {
            -(digits_value(d) as int)
        } else {
            digits_value(d) as int
        };
        if i64::MIN <= v && v <= i64::MAX {
            Some(v as i64)
        } else {
            None
        }
    }
}

proof fn lemma_digits_value_grows(s: Seq<char>, k: int)
    requires
        0 <= k <= s.len(),
        forall|i: int| 0 <= i < s.len() ==> is_digit(#[trigger] s[i]),
    ensures
        digits_value(s.subrange(0, k)) <= digits_value(s),
    decreases s.len() - k,
{
    if k < s.len() {
        lemma_digits_value_grows(s, k + 1);
        let t = s.subrange(0, k + 1);
        assert(t.drop_last() =~= s.subrange(0, k));
    } else {
        assert(s.subrange(0, k) =~= s);
    }
}

/// Reads a decimal `i64`, as `str::parse::<i64>` does.
pub fn parse_i64(text: &str) -> (r: Option<i64>)
    ensures
        r == parse_i64_spec(text@),
{
    let n = text.unicode_len();
    let ghost s = text@;
    let mut start: usize = 0;
    let mut neg = false;
    if n > 0 {
        let c = text.get_char(0);
        if c == '-' || c == '+' {
            start = 1;
            neg = c == '-';
        }
    }
    let ghost d = unsigned_part(s);
    assert(d =~= s.subrange(start as int, n as int));
    if start == n {
        return None;
    }
    // Enough to hold the magnitude of i64::MIN.
    let limit: u64 = 9223372036854775808;
    let mut acc: u64 = 0;
    let mut k: usize = start;
    while k < n
        invariant
            start <= k <= n,
            n == s.len(),
            s == text@,
            d == s.subrange(start as int, n as int),
            d == unsigned_part(s),
            neg == (s.len() > 0 && s[0] == '-'),
            limit == 9223372036854775808u64,
            acc <= limit,
            acc as nat == digits_value(d.subrange(0, k - start)),
            forall|i: int| 0 <= i < k - start ==> is_digit(#[trigger] d[i]),
        decreases n - k,
    {
        let c = text.get_char(k);
        let u = c as u32;
        if !(48 <= u && u <= 57) {
            assert(!is_digit(d[k - start]));
            assert(!(forall|i: int| 0 <= i < d.len() ==> is_digit(#[trigger] d[i])));
            return None;
        }
        let dv = (u - 48) as u64;
        proof {
            let t = d.subrange(0, k - start + 1);
            assert(t.drop_last() =~= d.subrange(0, k - start));
            assert(t.last() == c);
        }
        if acc > 922337203685477580 || (acc == 922337203685477580 && dv > 8) {
            // The prefix already exceeds every magnitude an i64 can have.
            proof {
                assert(acc * 10 + dv > limit);
                let kk = k - start + 1;
                if forall|i: int| 0 <= i < d.len() ==> is_digit(#[trigger] d[i]) {
                    lemma_digits_value_grows(d, kk);
                }
            }
            return None;
        }
        acc = acc * 10 + dv;
        k = k + 1;
    }
    assert(d.subrange(0, (n - start) as int) =~= d);
    if neg {
        if acc == limit {
            Some(i64::MIN)
        } else {
            Some(-(acc as i64))
        }
    } else if acc == limit {
        None
    } else {
        Some(acc as i64)
    }
}

} // verus!
