//! Decimal text of integers, as `to_string` writes it and `str::parse`
//! reads it, for the line formats of the event log.

use vstd::prelude::*;
use crate::text::{chars_of, string_from_chars};

verus! {

/// The character of a decimal digit.
pub open spec fn digit_char(d: nat) -> char {
    if d == 0 { '0' } else if d == 1 { '1' } else if d == 2 { '2' } else if d == 3 { '3' }
    else if d == 4 { '4' } else if d == 5 { '5' } else if d == 6 { '6' } else if d == 7 { '7' }
    else if d == 8 { '8' } else { '9' }
}

/// Whether `c` is an ASCII decimal digit.
pub open spec fn is_digit(c: char) -> bool {
    '0' <= c && c <= '9'
}

/// The value of a decimal digit.
pub open spec fn digit_value(c: char) -> nat {
    (c as u32 - '0' as u32) as nat
}

/// The decimal text of `n`: no sign, no leading zeros.
pub open spec fn dec(n: nat) -> Seq<char>
    decreases n,
{
    if n < 10 {
        seq![digit_char(n)]
    } else {
        dec(n / 10).push(digit_char(n % 10))
    }
}

/// The decimal text of a signed number: `-` before negative ones.
pub open spec fn dec_signed(n: int) -> Seq<char> {
    if n < 0 {
        seq!['-'] + dec((-n) as nat)
    } else {
        dec(n as nat)
    }
}

/// Whether every character is a decimal digit.
pub open spec fn all_digits(s: Seq<char>) -> bool {
    forall|i: int| 0 <= i < s.len() ==> is_digit(#[trigger] s[i])
}

/// The value of a string of decimal digits.
pub open spec fn digits_value(s: Seq<char>) -> nat
    decreases s.len(),
{
    if s.len() == 0 {
        0
    } else {
        digits_value(s.drop_last()) * 10 + digit_value(s.last())
    }
}

/// What `str::parse::<u64>` gives: an optional `+`, then one or more
/// digits whose value fits.
pub open spec fn parse_u64_spec(s: Seq<char>) -> Option<u64> {
    let ds = if s.len() > 0 && s[0] == '+' { s.drop_first() } else { s };
    if ds.len() > 0 && all_digits(ds) && digits_value(ds) <= u64::MAX {
        Some(digits_value(ds) as u64)
    } else {
        None
    }
}

/// What `str::parse::<u32>` gives.
pub open spec fn parse_u32_spec(s: Seq<char>) -> Option<u32> {
    match parse_u64_spec(s) {
        Some(v) => if v <= u32::MAX { Some(v as u32) } else { None },
        None => None,
    }
}

/// What `str::parse::<i64>` gives: an optional sign, then one or more digits
/// whose signed value fits.
pub open spec fn parse_i64_spec(s: Seq<char>) -> Option<i64> {
    let neg = s.len() > 0 && s[0] == '-';
    let ds = if s.len() > 0 && (s[0] == '+' || s[0] == '-') { s.drop_first() } else { s };
    if ds.len() > 0 && all_digits(ds) {
        let v = digits_value(ds) as int;
        if neg {
            if -v >= i64::MIN { Some((-v) as i64) } else { None }
        } else {
            if v <= i64::MAX { Some(v as i64) } else { None }
        }
    } else {
        None
    }
}

/// The character of digit `d`.
fn digit_to_char(d: u64) -> (c: char)
    requires
        d < 10,
    ensures
        c == digit_char(d as nat),
        is_digit(c),
        digit_value(c) == d,
{
    if d == 0 { '0' } else if d == 1 { '1' } else if d == 2 { '2' } else if d == 3 { '3' }
    else if d == 4 { '4' } else if d == 5 { '5' } else if d == 6 { '6' } else if d == 7 { '7' }
    else if d == 8 { '8' } else { '9' }
}

/// The decimal digits of `n`.
fn dec_chars(n: u64) -> (r: Vec<char>)
    ensures
        r@ == dec(n as nat),
    decreases n,
{
    if n < 10 {
        let mut v: Vec<char> = Vec::new();
        v.push(digit_to_char(n));
        proof {
            assert(v@ =~= seq![digit_char(n as nat)]);
        }
        v
    } else {
        let mut v = dec_chars(n / 10);
        v.push(digit_to_char(n % 10));
        v
    }
}

/// `n.to_string()` for a `u64`.
pub fn format_u64(n: u64) -> (s: String)
    ensures
        s@ == dec(n as nat),
{
    let v = dec_chars(n);
    string_from_chars(v.as_slice())
}

/// `n.to_string()` for an `i64`.
pub fn format_i64(n: i64) -> (s: String)
    ensures
        s@ == dec_signed(n as int),
{
    if n < 0 {
        let m: u64 = (0i128 - (n as i128)) as u64;
        let mut v: Vec<char> = Vec::new();
        v.push('-');
        let w = dec_chars(m);
        let mut i: usize = 0;
        while i < w.len()
            invariant
                i <= w.len(),
                v@ == seq!['-'] + w@.take(i as int),
            decreases w.len() - i,
        {
            proof {
                assert(seq!['-'] + w@.take(i as int + 1) =~= (seq!['-'] + w@.take(i as int)).push(w@[i as int]));
            }
            v.push(w[i]);
            i = i + 1;
        }
        proof {
            assert(w@.take(w.len() as int) =~= w@);
        }
        string_from_chars(v.as_slice())
    } else {
        format_u64(n as u64)
    }
}

/// A prefix of a digit string never has a larger value.
pub proof fn lemma_digits_value_prefix(s: Seq<char>, k: int)
    requires
        0 <= k <= s.len(),
    ensures
        digits_value(s.take(k)) <= digits_value(s),
    decreases s.len(),
{
    if k < s.len() {
        assert(s.drop_last().take(k) =~= s.take(k));
        lemma_digits_value_prefix(s.drop_last(), k);
    } else {
        assert(s.take(k) =~= s);
    }
}

/// Reads digits `ds[from..]`; none unless all are digits, at least one,
/// with a value that fits a `u64`.
fn parse_digits(ds: &Vec<char>, from: usize) -> (r: Option<u64>)
    requires
        from <= ds.len(),
    ensures
        ({
            let d = ds@.skip(from as int);
            r == (if d.len() > 0 && all_digits(d) && digits_value(d) <= u64::MAX {
                Some(digits_value(d) as u64)
            } else {
                None::<u64>
            })
        }),
{
    let ghost d = ds@.skip(from as int);
    if from == ds.len() {
        return None;
    }
    let mut acc: u64 = 0;
    let mut i: usize = from;
    proof {
        assert(d.take(0) =~= Seq::<char>::empty());
    }
    while i < ds.len()
        invariant
            from <= i <= ds.len(),
            d == ds@.skip(from as int),
            all_digits(d.take(i - from)),
            acc as nat == digits_value(d.take(i - from)),
        decreases ds.len() - i,
    {
        let c = ds[i];
        proof {
            assert(d[i - from] == c);
            assert(d.take(i - from + 1).drop_last() =~= d.take(i - from));
            assert(d.take(i - from + 1).last() == c);
        }
        if !('0' <= c && c <= '9') {
            proof {
                assert(!is_digit(d[i - from]));
            }
            return None;
        }
        let dv = (c as u32 - '0' as u32) as u64;
        let next = match acc.checked_mul(10) {
            Some(m) => m.checked_add(dv),
            None => None,
        };
        match next {
            Some(v) => {
                acc = v;
                proof {
                    assert(all_digits(d.take(i - from + 1))) by {
                        assert forall|j: int| 0 <= j < i - from + 1 implies is_digit(#[trigger] d.take(i - from + 1)[j]) by {
                            if j < i - from {
                                assert(d.take(i - from + 1)[j] == d.take(i - from)[j]);
                            }
                        }
                    }
                }
            },
            None => {
                proof {
                    assert(digits_value(d.take(i - from + 1)) > u64::MAX);
                    if all_digits(d) {
                        lemma_digits_value_prefix(d, i - from + 1);
                    }
                }
                return None;
            },
        }
        i = i + 1;
    }
    proof {
        assert(d.take(i - from) =~= d);
    }
    Some(acc)
}

/// `s.parse::<u64>()`.
pub fn parse_u64(s: &str) -> (r: Option<u64>)
    ensures
        r == parse_u64_spec(s@),
{
    let v = chars_of(s);
    if v.len() > 0 && v[0] == '+' {
        proof {
            assert(v@.skip(1) =~= s@.drop_first());
        }
        parse_digits(&v, 1)
    } else {
        proof {
            assert(v@.skip(0) =~= s@);
        }
        parse_digits(&v, 0)
    }
}

/// `s.parse::<u32>()`.
pub fn parse_u32(s: &str) -> (r: Option<u32>)
    ensures
        r == parse_u32_spec(s@),
{
    match parse_u64(s) {
        Some(v) => if v <= u32::MAX as u64 { Some(v as u32) } else { None },
        None => None,
    }
}

/// `s.parse::<i64>()`.
pub fn parse_i64(s: &str) -> (r: Option<i64>)
    ensures
        r == parse_i64_spec(s@),
{
    let v = chars_of(s);
    let neg = v.len() > 0 && v[0] == '-';
    let from: usize = if v.len() > 0 && (v[0] == '+' || v[0] == '-') { 1 } else { 0 };
    proof {
        if from == 1 {
            assert(v@.skip(1) =~= s@.drop_first());
        } else {
            assert(v@.skip(0) =~= s@);
        }
    }
    match parse_digits(&v, from) {
        None => {
            proof {
                let ds = v@.skip(from as int);
                if ds.len() > 0 && all_digits(ds) {
                    assert(digits_value(ds) > u64::MAX);
                }
            }
            None
        },
        Some(m) => {
            if neg {
                if m <= 9223372036854775808u64 {
                    Some((0i128 - (m as i128)) as i64)
                } else {
                    None
                }
            } else {
                if m <= i64::MAX as u64 {
                    Some(m as i64)
                } else {
                    None
                }
            }
        },
    }
}

/// A digit's character is a digit with that value.
proof fn lemma_digit_char(d: nat)
    requires
        d < 10,
    ensures
        is_digit(digit_char(d)),
        digit_value(digit_char(d)) == d,
{
    if d == 0 {} else if d == 1 {} else if d == 2 {} else if d == 3 {} else if d == 4 {}
    else if d == 5 {} else if d == 6 {} else if d == 7 {} else if d == 8 {} else {}
}

/// The decimal text of `n` is all digits, with value `n`, and does not start
/// with a sign.
pub proof fn lemma_dec_value(n: nat)
    ensures
        dec(n).len() > 0,
        all_digits(dec(n)),
        digits_value(dec(n)) == n,
        dec(n)[0] != '+' && dec(n)[0] != '-',
    decreases n,
{
    lemma_digit_char(n % 10);
    if n < 10 {
        assert(n % 10 == n);
        assert(dec(n).drop_last() =~= Seq::<char>::empty());
        assert(digits_value(Seq::<char>::empty()) == 0);
        assert(digits_value(dec(n)) == digit_value(digit_char(n)));
    }
    if n >= 10 {
        lemma_dec_value(n / 10);
        let p = dec(n / 10);
        assert(dec(n).drop_last() =~= p);
        assert(dec(n)[0] == p[0]);
        assert forall|i: int| 0 <= i < dec(n).len() implies is_digit(#[trigger] dec(n)[i]) by {
            if i < p.len() {
                assert(dec(n)[i] == p[i]);
            }
        }
        assert(digit_value(digit_char(n % 10)) == n % 10);
        assert(dec(n).last() == digit_char(n % 10));
        assert(digits_value(dec(n)) == digits_value(p) * 10 + digit_value(digit_char(n % 10)));
        assert(digits_value(p) == n / 10);
        assert((n / 10) * 10 + n % 10 == n) by (nonlinear_arith);
    }
}

/// Parsing the decimal text of a number gives the number back.
pub proof fn decimal_roundtrip_u64(n: u64)
    ensures
        parse_u64_spec(dec(n as nat)) == Some(n),
{
    lemma_dec_value(n as nat);
}

/// Parsing the decimal text of a signed number gives the number back.
pub proof fn decimal_roundtrip_i64(n: i64)
    ensures
        parse_i64_spec(dec_signed(n as int)) == Some(n),
{
    if n < 0 {
        let m = (-(n as int)) as nat;
        lemma_dec_value(m);
        let s = dec_signed(n as int);
        assert(s.drop_first() =~= dec(m));
    } else {
        lemma_dec_value(n as nat);
    }
}

} // verus!
