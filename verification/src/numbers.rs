//! Decimal numbers in text: reading a signed 32-bit integer and writing a
//! signed integer.

use vstd::prelude::*;
use crate::text::{chars_of, string_from_chars};

verus! {

pub open spec fn is_digit(c: char) -> bool {
    '0' <= c <= '9'
}

pub open spec fn digit_value(c: char) -> int {
    (c as int) - ('0' as int)
}

/// The value of a sequence of decimal digits.
pub open spec fn decimal_value(ds: Seq<char>) -> int
    decreases ds.len(),
{
    if ds.len() == 0 {
        0
    } else {
        decimal_value(ds.drop_last()) * 10 + digit_value(ds.last())
    }
}

/// Every character is a decimal digit.
pub open spec fn all_digits(ds: Seq<char>) -> bool {
    forall|k: int| 0 <= k < ds.len() ==> is_digit(#[trigger] ds[k])
}

/// What `str::parse::<i32>` gives: an optional `+` or `-`, then one or more
/// decimal digits, with a value that fits in `i32`.
pub open spec fn parse_i32_spec(s: Seq<char>) -> Option<i32> {
    let neg = s.len() > 0 && s[0] == '-';
    let signed = s.len() > 0 && (s[0] == '-' || s[0] == '+');
    let ds = if signed { s.skip(1) } else { s };
    if ds.len() == 0 || !all_digits(ds) {
        None
    } else {
        let v = if neg { -decimal_value(ds) } else { decimal_value(ds) };
        if i32::MIN <= v <= i32::MAX {
            Some(v as i32)
        } else {
            None
        }
    }
}

proof fn lemma_decimal_grows(ds: Seq<char>, k: int)
    requires
        0 <= k <= ds.len(),
        forall|i: int| 0 <= i < ds.len() ==> is_digit(#[trigger] ds[i]),
    ensures
        decimal_value(ds.take(k)) <= decimal_value(ds),
        0 <= decimal_value(ds.take(k)),
    decreases ds.len() - k,
{
    lemma_decimal_nonneg(ds.take(k));
    if k < ds.len() {
        lemma_decimal_grows(ds, k + 1);
        assert(ds.take(k + 1).drop_last() =~= ds.take(k));
        assert(ds.take(k + 1).last() == ds[k]);
    } else {
        assert(ds.take(k) =~= ds);
    }
}

proof fn lemma_decimal_nonneg(ds: Seq<char>)
    requires
        forall|i: int| 0 <= i < ds.len() ==> is_digit(#[trigger] ds[i]),
    ensures
        0 <= decimal_value(ds),
    decreases ds.len(),
{
    if ds.len() > 0 {
        lemma_decimal_nonneg(ds.drop_last());
    }
}

/// Parse a signed 32-bit decimal integer, as `str::parse::<i32>` does.
pub fn parse_i32(text: &str) -> (r: Option<i32>)
    ensures
        r == parse_i32_spec(text@),
{
    let s = chars_of(text);
    let n = s.len();
    if n == 0 {
        return None;
    }
    let neg = s[0] == '-';
    let signed = s[0] == '-' || s[0] == '+';
    let start: usize = if signed { 1 } else { 0 };
    let ghost ds = if signed { s@.skip(1) } else { s@ };
    assert(ds =~= s@.skip(start as int));
    if start == n {
        return None;
    }
    let mut acc: i64 = 0;
    let mut i: usize = start;
    while i < n
        invariant
            s@ == text@,
            n == s@.len(),
            n > 0,
            signed == (s@[0] == '-' || s@[0] == '+'),
            neg == (s@[0] == '-'),
            start == (if signed { 1usize } else { 0usize }),
            ds == (if signed { s@.skip(1) } else { s@ }),
            start <= i <= n,
            ds == s@.skip(start as int),
            forall|k: int| 0 <= k < i - start ==> is_digit(#[trigger] ds[k]),
            acc == decimal_value(ds.take(i - start)),
            0 <= acc <= 0x8000_0000,
        decreases n - i,
    {
        let c = s[i];
        if c < '0' || c > '9' {
            proof {
                let k = i - start;
                assert(ds[k] == c);
                assert(!is_digit(ds[k]));
                assert(!all_digits(ds));
            }
            return None;
        }
        proof {
            assert(ds.take(i - start + 1).drop_last() =~= ds.take(i - start));
            assert(ds.take(i - start + 1).last() == c);
        }
        let d = (c as u32 - '0' as u32) as i64;
        acc = acc * 10 + d;
        i = i + 1;
        if acc > 0x8000_0000 {
            proof {
                assert(acc == decimal_value(ds.take(i - start)));
                if all_digits(ds) {
                    lemma_decimal_grows(ds, i - start);
                    assert(decimal_value(ds) > 0x8000_0000);
                }
            }
            return None;
        }
    }
    assert(ds.take(n - start) =~= ds);
    if neg {
        let v = -acc;
        if v < i32::MIN as i64 {
            return None;
        }
        Some(v as i32)
    } else {
        if acc > i32::MAX as i64 {
            return None;
        }
        Some(acc as i32)
    }
}

/// The decimal digits of a natural number.
pub open spec fn nat_decimal(v: nat) -> Seq<char>
    decreases v,
{
    if v < 10 {
        seq![(('0' as int) + v) as char]
    } else {
        nat_decimal(v / 10) + seq![(('0' as int) + v % 10) as char]
    }
}

/// The decimal form of an integer, with `-` for a negative one.
pub open spec fn int_decimal(v: int) -> Seq<char> {
    if v < 0 {
        seq!['-'] + nat_decimal((-v) as nat)
    } else {
        nat_decimal(v as nat)
    }
}

/// The decimal digits of `v`.
fn u64_digits(v: u64) -> (r: Vec<char>)
    ensures
        r@ == nat_decimal(v as nat),
    decreases v,
{
    let d = (v % 10) as u32;
    let table = ['0', '1', '2', '3', '4', '5', '6', '7', '8', '9'];
    let c = table[d as usize];
    assert(c == (('0' as int) + (v % 10)) as char) by {
        assert(table@[d as int] == c);
    }
    if v < 10 {
        vec![c]
    } else {
        let mut r = u64_digits(v / 10);
        r.push(c);
        r
    }
}

/// The decimal form of `v` (what `format!("{}", v)` writes).
pub fn i64_to_decimal(v: i64) -> (r: String)
    ensures
        r@ == int_decimal(v as int),
{
    if v < 0 {
        let mut out = vec!['-'];
        let magnitude: u64 = if v == i64::MIN { 9223372036854775808u64 } else { (-v) as u64 };
        let digits = u64_digits(magnitude);
        let mut k: usize = 0;
        while k < digits.len()
            invariant
                k <= digits@.len(),
                out@ == seq!['-'] + digits@.take(k as int),
            decreases digits.len() - k,
        {
            out.push(digits[k]);
            k = k + 1;
            assert(out@ =~= seq!['-'] + digits@.take(k as int));
        }
        assert(digits@.take(k as int) =~= digits@);
        string_from_chars(out.as_slice())
    } else {
        let digits = u64_digits(v as u64);
        string_from_chars(digits.as_slice())
    }
}

} // verus!
