//! Command-line values that the library reads itself: the `--since`
//! duration of `pen context`, and the `pen config` actions.
use vstd::prelude::*;

use crate::text::{chars_of, push_char, push_str};

verus! {

broadcast use vstd::string::group_string_axioms;

/// A number of days, written `<n>d` (days) or `<n>w` (weeks). Notes are one
/// file per day, so smaller units would not change which notes are read.
#[derive(Debug, Clone, Copy)]
pub struct Since(pub u32);

/// What `pen config` does.
#[derive(Debug, Clone, Copy, PartialEq, Eq, Structural)]
pub enum ConfigAction {
    /// Print the resolved path of the config file.
    Path,
    /// Write the default config file; fails if it already exists.
    Init,
    /// Print the config in effect.
    Check,
}

pub open spec fn is_digit(c: char) -> bool {
    '0' <= c <= '9'
}

/// The value of a run of decimal digits.
pub open spec fn digits_value(s: Seq<char>) -> nat
    decreases s.len(),
{
    if s.len() == 0 {
        0
    } else {
        digits_value(s.drop_last()) * 10 + ((s.last() as u32) - ('0' as u32)) as nat
    }
}

/// The digits of a number with an optional leading `+`.
pub open spec fn unsigned_part(s: Seq<char>) -> Seq<char> {
    if s.len() > 0 && s[0] == '+' {
        s.drop_first()
    } else {
        s
    }
}

pub open spec fn all_digits(s: Seq<char>) -> bool {
    forall|i: int| 0 <= i < s.len() ==> is_digit(#[trigger] s[i])
}

/// What `u32::from_str` accepts: an optional `+` and then one or more
/// decimal digits, with a value that fits in `u32`.
pub open spec fn parse_u32_spec(s: Seq<char>) -> Option<u32> {
    let digits = unsigned_part(s);
    if digits.len() == 0 || !all_digits(digits) {
        None
    } else if digits_value(digits) > u32::MAX {
        None
    } else {
        Some(digits_value(digits) as u32)
    }
}

/// What a `--since` value means in days, if it is valid.
pub open spec fn since_spec(s: Seq<char>) -> Option<int> {
    if s.len() == 0 {
        None
    } else {
        match parse_u32_spec(s.drop_last()) {
            None => None,
            Some(n) => if s.last() == 'd' {
                Some(n as int)
            } else if s.last() == 'w' {
                Some(n * 7)
            } else {
                None
            },
        }
    }
}

/// The error text for an invalid `--since` value.
pub open spec fn since_error(s: Seq<char>) -> Seq<char> {
    "invalid duration `"@ + s + "`, expected e.g. `7d` or `2w`"@
}

/// Parses the digits of a `u32` as `u32::from_str` does.
fn parse_u32(v: &Vec<char>, from: usize, to: usize) -> (r: Option<u32>)
    requires
        from <= to <= v@.len(),
    ensures
        r == parse_u32_spec(v@.subrange(from as int, to as int)),
{
    let ghost s = v@.subrange(from as int, to as int);
    let mut start = from;
    if start < to && v[start] == '+' {
        start = start + 1;
    }
    let ghost digits = v@.subrange(start as int, to as int);
    assert(digits == unsigned_part(s));
    if start == to {
        assert(digits.len() == 0);
        return None;
    }
    let mut j = start;
    while j < to
        invariant
            start <= j <= to,
            to <= v@.len(),
            digits == v@.subrange(start as int, to as int),
            digits == unsigned_part(s),
            s == v@.subrange(from as int, to as int),
            forall|k: int| start <= k < j ==> is_digit(#[trigger] v@[k]),
        decreases to - j,
    {
        let c = v[j];
        if !('0' <= c && c <= '9') {
            let ghost at = j - start;
            assert(digits[at] == c);
            assert(!is_digit(digits[at]));
            assert(!all_digits(digits));
            assert(parse_u32_spec(s) is None);
            return None;
        }
        j += 1;
    }
    assert(all_digits(digits)) by {
        assert forall|k: int| 0 <= k < digits.len() implies is_digit(#[trigger] digits[k]) by {
            assert(digits[k] == v@[start + k]);
        }
    }
    let mut value: u64 = 0;
    let mut i = start;
    while i < to
        invariant
            start <= i <= to,
            to <= v@.len(),
            digits == v@.subrange(start as int, to as int),
            digits == unsigned_part(s),
            s == v@.subrange(from as int, to as int),
            forall|k: int| 0 <= k < digits.len() ==> is_digit(#[trigger] digits[k]),
            value == digits_value(v@.subrange(start as int, i as int)),
            value <= u32::MAX,
        decreases to - i,
    {
        let c = v[i];
        assert(c == digits[i - start]);
        assert(is_digit(digits[i - start]));
        assert(v@.subrange(start as int, i + 1).drop_last() == v@.subrange(start as int, i as int));
        let d = (c as u32 - '0' as u32) as u64;
        value = value * 10 + d;
        if value > u32::MAX as u64 {
            proof {
                assert(digits.take((i + 1 - start) as int) == v@.subrange(start as int, i + 1));
                lemma_digits_value_grows(digits, (i + 1 - start) as int);
                assert(digits_value(digits) > u32::MAX);
                assert(parse_u32_spec(s) is None);
            }
            return None;
        }
        i += 1;
    }
    assert(v@.subrange(start as int, to as int) == digits);
    Some(value as u32)
}

proof fn lemma_digits_value_grows(s: Seq<char>, k: int)
    requires
        0 <= k <= s.len(),
        forall|i: int| 0 <= i < s.len() ==> is_digit(#[trigger] s[i]),
    ensures
        digits_value(s.take(k)) <= digits_value(s),
    decreases s.len() - k,
{
    if k < s.len() {
        lemma_digits_value_grows(s, k + 1);
        assert(s.take(k + 1).drop_last() == s.take(k));
    } else {
        assert(s.take(k) == s);
    }
}

/// Whether a `--since` value in weeks stays within `u32` days (more weeks
/// than that would overflow).
pub open spec fn since_in_range_spec(s: Seq<char>) -> bool {
    since_spec(s) matches Some(n) ==> n <= u32::MAX
}

/// Whether `s` is a `--since` value whose days fit in `u32`.
pub fn since_in_range(s: &str) -> (r: bool)
    ensures
        r == since_in_range_spec(s@),
{
    let v = chars_of(s);
    if v.len() == 0 {
        return true;
    }
    let unit = v[v.len() - 1];
    assert(v@.subrange(0, v@.len() - 1) == v@.drop_last());
    match parse_u32(&v, 0, v.len() - 1) {
        None => true,
        Some(n) => !(unit == 'w' && n > u32::MAX / 7),
    }
}

impl Since {
    /// Reads `<n>d` or `<n>w` (`n` as `u32::from_str` reads it). Anything
    /// else is an error naming the value.
    pub fn from_str(s: &str) -> (r: Result<Since, String>)
        requires
            since_in_range_spec(s@),
        ensures
            match since_spec(s@) {
                Some(n) => r matches Ok(since) && since.0 == n,
                None => r matches Err(e) && e@ == since_error(s@),
            },
    {
        let v = chars_of(s);
        if v.len() == 0 {
            return Err(invalid(s));
        }
        let unit = v[v.len() - 1];
        assert(v@.subrange(0, v@.len() - 1) == v@.drop_last());
        let n = match parse_u32(&v, 0, v.len() - 1) {
            Some(n) => n,
            None => return Err(invalid(s)),
        };
        if unit == 'd' {
            Ok(Since(n))
        } else if unit == 'w' {
            Ok(Since(n * 7))
        } else {
            Err(invalid(s))
        }
    }
}

fn invalid(s: &str) -> (e: String)
    ensures
        e@ == since_error(s@),
{
    let mut e = "invalid duration `".to_string();
    push_str(&mut e, s);
    push_str(&mut e, "`, expected e.g. `7d` or `2w`");
    e
}

} // verus!
