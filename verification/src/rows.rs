//! Validation of one input row: nine whitespace-split tokens, each parsing
//! as an integer in 0..=9. A token parses like an unsigned decimal integer:
//! an optional leading `+`, then at least one digit; its value stays within
//! 0..=9 exactly when every digit before the last one is a zero.

use vstd::prelude::*;
use vstd::string::StrSliceExecFns;

verus! {

/// The character is a decimal digit.
pub open spec fn is_digit_char(c: char) -> bool {
    48 <= c as int <= 57
}

/// The digits of a token: everything after the optional leading `+`.
pub open spec fn digits_part(s: Seq<char>) -> Seq<char> {
    if s.len() > 0 && s[0] == '+' {
        s.subrange(1, s.len() as int)
    } else {
        s
    }
}

/// The token is an unsigned decimal integer whose value lies in 0..=9:
/// an optional `+`, then at least one digit, all of them `0` except
/// possibly the last.
pub open spec fn token_ok(s: Seq<char>) -> bool {
    let d = digits_part(s);
    &&& d.len() >= 1
    &&& (forall|k: int| 0 <= k < d.len() ==> is_digit_char(#[trigger] d[k]))
    &&& (forall|k: int| 0 <= k < d.len() - 1 ==> #[trigger] d[k] == '0')
}

/// The value of a well-formed token: its last digit decides it, every
/// earlier digit being a zero.
pub open spec fn token_value(s: Seq<char>) -> int {
    digits_part(s).last() as int - 48
}

/// A row is valid when it splits into exactly nine tokens, each an integer
/// in 0..=9.
pub open spec fn row_ok(row: Seq<String>) -> bool {
    row.len() == 9 && forall|t: int| 0 <= t < 9 ==> token_ok(#[trigger] row[t]@)
}

/// Decide whether one token is an integer in 0..=9.
fn token_valid(s: &str) -> (r: bool)
    ensures
        r == token_ok(s@),
{
    let n = s.unicode_len();
    let start: usize = if n > 0 && s.get_char(0) == '+' {
        1
    } else {
        0
    };
    assert(digits_part(s@) =~= s@.subrange(start as int, n as int));
    if n == start {
        return false;
    }
    let mut k: usize = start;
    while k < n
        invariant
            n == s@.len(),
            start <= k <= n,
            start < n,
            start <= 1,
            digits_part(s@) =~= s@.subrange(start as int, n as int),
            forall|t: int| start <= t < k ==> is_digit_char(#[trigger] s@[t]),
            forall|t: int| start <= t < k && t < n - 1 ==> #[trigger] s@[t] == '0',
        decreases n - k,
    {
        let c = s.get_char(k);
        let u = c as u32;
        if u < 48 || u > 57 {
            proof {
                let d = digits_part(s@);
                if token_ok(s@) {
                    assert(d[k - start] == s@[k as int]);
                    assert(is_digit_char(d[k - start]));
                    assert(c as int == u as int);
                    assert(false);
                }
            }
            return false;
        }
        if k + 1 < n && u != 48 {
            proof {
                let d = digits_part(s@);
                if token_ok(s@) {
                    assert(d[k - start] == s@[k as int]);
                    assert(k - start < d.len() - 1);
                    assert(d[k - start] == '0');
                    assert(c as int == u as int);
                    assert(false);
                }
            }
            return false;
        }
        proof {
            assert(c as int == u as int);
            if k + 1 < n {
                assert(c as int == 48);
                assert(c == '0');
            }
        }
        k += 1;
    }
    true
}

/// Decide whether a row of tokens is nine integers in 0..=9.
pub fn valid_row(row: &[String]) -> (r: bool)
    ensures
        r == row_ok(row@),
{
    if row.len() != 9 {
        return false;
    }
    let mut t: usize = 0;
    while t < 9
        invariant
            row@.len() == 9,
            t <= 9,
            forall|u: int| 0 <= u < t ==> token_ok(#[trigger] row@[u]@),
        decreases 9 - t,
    {
        if !token_valid(row[t].as_str()) {
            return false;
        }
        t += 1;
    }
    true
}

/// The digit a well-formed token stands for.
pub fn token_digit(s: &str) -> (r: u8)
    requires
        token_ok(s@),
    ensures
        r as int == token_value(s@),
        r <= 9,
{
    let n = s.unicode_len();
    let c = s.get_char(n - 1);
    let u = c as u32;
    proof {
        let d = digits_part(s@);
        assert(d.last() == s@[n - 1]);
        assert(is_digit_char(d.last()));
        assert(48 <= u <= 57);
    }
    (u - 48) as u8
}

} // verus!
