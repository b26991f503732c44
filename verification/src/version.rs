//! Protocol version and the compatibility rule between protocol
//! versions.
//!
//! A version string is three dot-separated components; a component that
//! is empty, non-numeric or too large for a `u32` counts as zero, as
//! lenient parsers do.  A version is compatible when its major component
//! matches the current protocol's and it is not older than the current
//! protocol in the minor/patch order.

use vstd::prelude::*;

verus! {

/// The current protocol version.
pub const PROTOCOL_VERSION: &'static str = "1.0.0";

/// Major component of the current protocol version.
pub const CURRENT_MAJOR: u32 = 1;

/// Minor component of the current protocol version.
pub const CURRENT_MINOR: u32 = 0;

/// Patch component of the current protocol version.
pub const CURRENT_PATCH: u32 = 0;

/// A decimal digit.
pub open spec fn is_digit(c: char) -> bool {
    48 <= c as u32 && c as u32 <= 57
}

/// The value of a decimal digit.
pub open spec fn digit_val(c: char) -> int {
    c as u32 - 48
}

/// Whether every character is a decimal digit.
pub open spec fn all_digits(s: Seq<char>) -> bool {
    forall|i: int| 0 <= i < s.len() ==> is_digit(#[trigger] s[i])
}

/// The number a digit string denotes.
pub open spec fn digits_val(s: Seq<char>) -> int
    decreases s.len(),
{
    if s.len() == 0 {
        0
    } else {
        digits_val(s.drop_last()) * 10 + digit_val(s.last())
    }
}

/// The number a version component denotes: its digit value when it is a
/// non-empty digit string that fits a `u32`, and zero otherwise.
pub open spec fn parse_or_zero(s: Seq<char>) -> int {
    if s.len() > 0 && all_digits(s) && digits_val(s) <= u32::MAX {
        digits_val(s)
    } else {
        0
    }
}

/// Index of the first dot at or after `i`, or the length if there is
/// none.
pub open spec fn first_dot_from(s: Seq<char>, i: int) -> int
    decreases s.len() - i,
    when 0 <= i <= s.len()
{
    if i >= s.len() {
        s.len() as int
    } else if s[i] == '.' {
        i
    } else {
        first_dot_from(s, i + 1)
    }
}

/// The compatibility rule: the string has exactly three dot-separated
/// components; the major component equals the current protocol's, and
/// the (minor, patch) pair is not below the current protocol's.
pub open spec fn version_compatible(s: Seq<char>) -> bool {
    let d1 = first_dot_from(s, 0);
    let d2 = first_dot_from(s, d1 + 1);
    let d3 = first_dot_from(s, d2 + 1);
    &&& d1 < s.len()
    &&& d2 < s.len()
    &&& d3 == s.len()
    &&& {
        let major = parse_or_zero(s.subrange(0, d1));
        let minor = parse_or_zero(s.subrange(d1 + 1, d2));
        let patch = parse_or_zero(s.subrange(d2 + 1, s.len() as int));
        major == CURRENT_MAJOR && (CURRENT_MINOR <= minor || (CURRENT_MINOR == minor && CURRENT_PATCH
            <= patch))
    }
}

/// Parse the component at `[start, end)` of the string, with malformed
/// or oversized components counting as zero.
#[verifier::loop_isolation(false)]
fn parse_part(s: &str, start: usize, end: usize) -> (r: u32)
    requires
        start <= end <= s@.len(),
    ensures
        r == parse_or_zero(s@.subrange(start as int, end as int)),
{
    let ghost part = s@.subrange(start as int, end as int);
    let mut val: u64 = 0;
    let mut ok = true;
    let mut i: usize = start;
    while i < end
        invariant
            start <= i <= end,
            ok == all_digits(s@.subrange(start as int, i as int)),
            ok ==> (digits_val(s@.subrange(start as int, i as int)) <= u32::MAX ==> val == digits_val(
                s@.subrange(start as int, i as int),
            )),
            ok ==> (digits_val(s@.subrange(start as int, i as int)) > u32::MAX ==> val == u32::MAX as u64
                + 1),
            val <= u32::MAX as u64 + 1,
        decreases end - i,
    {
        let ghost prefix = s@.subrange(start as int, i as int);
        let c = s.get_char(i);
        let cv = c as u32;
        proof {
            assert(s@.subrange(start as int, i + 1 as int) =~= prefix.push(s@[i as int]));
            assert(s@.subrange(start as int, i + 1 as int).drop_last() =~= prefix);
        }
        if cv < 48 || cv > 57 {
            ok = false;
            proof {
                let sub = s@.subrange(start as int, i + 1 as int);
                assert(sub[sub.len() - 1] == s@[i as int]);
                assert(!is_digit(sub[sub.len() - 1]));
                assert(!all_digits(sub));
            }
        } else {
            proof {
                if ok {
                    assert(all_digits(s@.subrange(start as int, i + 1 as int))) by {
                        assert(forall|q: int|
                            0 <= q < prefix.len() ==> is_digit(#[trigger] prefix[q]));
                        assert(is_digit(s@[i as int]));
                    }
                    if digits_val(prefix) > u32::MAX {
                        assert(digits_val(prefix) * 10 + digit_val(s@[i as int]) > u32::MAX) by (nonlinear_arith)
                            requires
                                digits_val(prefix) > u32::MAX,
                                digit_val(s@[i as int]) >= 0,
                        ;
                    }
                }
            }
            if ok {
                let d = (cv - 48) as u64;
                if val <= u32::MAX as u64 {
                    let next = val * 10 + d;
                    if next > u32::MAX as u64 {
                        val = u32::MAX as u64 + 1;
                    } else {
                        val = next;
                    }
                }
            }
        }
        i = i + 1;
    }
    if ok && val <= u32::MAX as u64 && end > start {
        val as u32
    } else {
        proof {
            if ok && end > start {
                assert(digits_val(part) > u32::MAX);
            }
        }
        0
    }
}

/// Whether a version string is compatible with the current protocol
/// version: exactly three dot-separated components, the same major
/// version, and a (minor, patch) pair at least the current one.
#[verifier::loop_isolation(false)]
pub fn is_compatible_version(version: &str) -> (r: bool)
    ensures
        r == version_compatible(version@),
{
    let ghost s = version@;
    let n = version.unicode_len();
    let mut dots: u32 = 0;
    let mut d1: usize = 0;
    let mut d2: usize = 0;
    let mut i: usize = 0;
    while i < n
        invariant
            i <= n,
            n == s.len(),
            dots <= 2,
            dots == 0 ==> first_dot_from(s, 0) == first_dot_from(s, i as int),
            dots >= 1 ==> (d1 < i && d1 as int == first_dot_from(s, 0)),
            dots == 1 ==> first_dot_from(s, d1 + 1 as int) == first_dot_from(s, i as int),
            dots == 2 ==> (d2 < i && d1 < d2 && d2 as int == first_dot_from(s, d1 + 1 as int)
                && first_dot_from(s, d2 + 1 as int) == first_dot_from(s, i as int)),
        decreases n - i,
    {
        let c = version.get_char(i);
        if c == '.' {
            if dots == 0 {
                d1 = i;
                dots = 1;
            } else if dots == 1 {
                d2 = i;
                dots = 2;
            } else {
                proof {
                    assert(first_dot_from(s, d2 + 1 as int) == i as int);
                }
                return false;
            }
        }
        i = i + 1;
    }
    proof {
        assert(first_dot_from(s, n as int) == s.len());
    }
    if dots != 2 {
        return false;
    }
    let major = parse_part(version, 0, d1);
    let minor = parse_part(version, d1 + 1, d2);
    let patch = parse_part(version, d2 + 1, n);
    major == CURRENT_MAJOR && (CURRENT_MINOR <= minor || (CURRENT_MINOR == minor && CURRENT_PATCH
        <= patch))
}

} // verus!
