//! Parsing of the textual values that dynamic operations hand to typed
//! columns: decimal practice counters and boolean flags.

use vstd::prelude::*;

verus! {

use vstd::string::StringExecFns;
use vstd::string::StrSliceExecFns;

/// Whether a character is a decimal digit.
pub open spec fn is_digit_char(c: char) -> bool {
    ('0' as u32) <= (c as u32) && (c as u32) <= ('9' as u32)
}

/// The numeric value of a decimal digit.
pub open spec fn digit_value(c: char) -> int {
    (c as u32) - ('0' as u32)
}

/// Whether every character of a text is a decimal digit.
pub open spec fn all_digits(s: Seq<char>) -> bool {
    forall|i: int| 0 <= i < s.len() ==> is_digit_char(#[trigger] s[i])
}

/// The value of a text read as a decimal numeral, most significant digit
/// first.
pub open spec fn digits_value(s: Seq<char>) -> int
    decreases s.len(),
{
    if s.len() == 0 {
        0
    } else {
        10 * digits_value(s.drop_last()) + digit_value(s.last())
    }
}

/// The value of a text as a practice counter: defined exactly for a
/// non-empty all-digit text whose value fits the engine's integer range.
pub open spec fn parse_count(s: Seq<char>) -> Option<int> {
    if s.len() > 0 && all_digits(s) && digits_value(s) <= i64::MAX {
        Some(digits_value(s))
    } else {
        None
    }
}

/// The value of a text as a boolean flag: the tokens `"1"` and `"true"`
/// mean true, `"0"` and `"false"` mean false, anything else is rejected.
pub open spec fn parse_flag(s: Seq<char>) -> Option<bool> {
    if s == "1"@ || s == "true"@ {
        Some(true)
    } else if s == "0"@ || s == "false"@ {
        Some(false)
    } else {
        None
    }
}

/// An all-digit numeral has a non-negative value.
pub proof fn lemma_digits_value_nonneg(s: Seq<char>)
    requires
        all_digits(s),
    ensures
        digits_value(s) >= 0,
    decreases s.len(),
{
    if s.len() > 0 {
        assert(all_digits(s.drop_last())) by {
            assert(forall|i: int|
                0 <= i < s.drop_last().len() ==> #[trigger] s.drop_last()[i] == s[i]);
        }
        lemma_digits_value_nonneg(s.drop_last());
    }
}

/// Extending an all-digit numeral to the right never shrinks its value.
pub proof fn lemma_digits_value_prefix_le(s: Seq<char>, k: int)
    requires
        all_digits(s),
        0 <= k <= s.len(),
    ensures
        digits_value(s.take(k)) <= digits_value(s),
    decreases s.len(),
{
    if k == s.len() {
        assert(s.take(k) =~= s);
    } else {
        let d = s.drop_last();
        assert(all_digits(d)) by {
            assert(forall|i: int| 0 <= i < d.len() ==> #[trigger] d[i] == s[i]);
        }
        lemma_digits_value_nonneg(d);
        lemma_digits_value_prefix_le(d, k);
        assert(d.take(k) =~= s.take(k));
        assert(digits_value(s) >= digits_value(d));
    }
}

/// Whether two texts hold the same characters.
pub fn str_eq(a: &str, b: &str) -> (r: bool)
    ensures
        r == (a@ == b@),
{
    let sa = String::from_str(a);
    let sb = String::from_str(b);
    sa == sb
}

/// Parses a text as a practice counter; rejects an empty text, a non-digit
/// character, and a value beyond the engine's integer range.
pub fn parse_count_text(s: &str) -> (r: Option<i64>)
    ensures
        match r {
            Some(n) => parse_count(s@) == Some(n as int),
            None => parse_count(s@) is None,
        },
{
    let n = s.unicode_len();
    if n == 0 {
        return None;
    }
    let mut acc: i64 = 0;
    let mut i: usize = 0;
    while i < n
        invariant
            0 < n == s@.len(),
            0 <= i <= n,
            all_digits(s@.take(i as int)),
            acc == digits_value(s@.take(i as int)),
            0 <= acc <= i64::MAX,
        decreases n - i,
    {
        let c = s.get_char(i);
        let cv = c as u32;
        if cv < '0' as u32 || cv > '9' as u32 {
            assert(!is_digit_char(s@[i as int]));
            return None;
        }
        let d = (cv - '0' as u32) as i64;
        proof {
            assert(s@.take(i + 1).drop_last() =~= s@.take(i as int));
            assert(s@.take(i + 1).last() == s@[i as int]);
        }
        let next = match acc.checked_mul(10) {
            Some(m) => m.checked_add(d),
            None => None,
        };
        match next {
            Some(v) => {
                acc = v;
            },
            None => {
                proof {
                    assert(digits_value(s@.take(i + 1)) == 10 * acc + d);
                    if all_digits(s@) {
                        lemma_digits_value_prefix_le(s@, i + 1);
                    }
                }
                return None;
            },
        }
        i = i + 1;
    }
    proof {
        assert(s@.take(n as int) =~= s@);
    }
    Some(acc)
}

/// Parses a text as a boolean flag.
pub fn parse_flag_text(s: &str) -> (r: Option<bool>)
    ensures
        r == parse_flag(s@),
{
    if str_eq(s, "1") || str_eq(s, "true") {
        Some(true)
    } else if str_eq(s, "0") || str_eq(s, "false") {
        Some(false)
    } else {
        None
    }
}

} // verus!

