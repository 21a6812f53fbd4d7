//! Verified decimal parsing and rendering.
//!
//! The parsers follow the standard library's integer grammar: an optional
//! sign, then one or more ASCII digits, with an out-of-range value rejected.
//! The renderer produces the canonical decimal form with no sign for zero.

use vstd::prelude::*;

use crate::text::eq_icase;

verus! {

/// True of the ASCII decimal digits.
pub open spec fn is_digit(c: char) -> bool {
    48 <= c as u32 <= 57
}

/// The numeric value of an ASCII digit.
pub open spec fn digit_val(c: char) -> nat {
    (c as u32 - 48) as nat
}

/// True when every character of `s` is an ASCII digit.
pub open spec fn all_digits(s: Seq<char>) -> bool {
    forall|i: int| 0 <= i < s.len() ==> is_digit(#[trigger] s[i])
}

/// The value of a digit string read in base 10.
pub open spec fn dec_val(s: Seq<char>) -> nat
    decreases s.len(),
{
    if s.len() == 0 {
        0
    } else {
        dec_val(s.drop_last()) * 10 + digit_val(s.last())
    }
}

/// Scans `s` from position `from` to the end. Returns whether that suffix is
/// one or more digits, and its base-10 value, exact whenever it fits in a
/// `u64` and otherwise some value above `u64::MAX`.
pub fn scan_digits(s: &str, from: usize) -> (r: (bool, u128))
    requires
        from <= s@.len(),
    ensures
        r.0 == (s@.len() - from > 0 && all_digits(s@.skip(from as int))),
        r.0 && dec_val(s@.skip(from as int)) <= u64::MAX ==> r.1 == dec_val(
            s@.skip(from as int),
        ),
        r.0 && dec_val(s@.skip(from as int)) > u64::MAX ==> r.1 > u64::MAX,
{
    let ghost body = s@.skip(from as int);
    let n = s.unicode_len();
    let mut i: usize = from;
    let mut acc: u128 = 0;
    let mut ok: bool = n > from;
    while i < n
        invariant
            from <= i <= n,
            n == s@.len(),
            body == s@.skip(from as int),
            ok ==> (n > from && all_digits(body.take(i - from))),
            !ok ==> !(n - from > 0 && all_digits(body)),
            ok && dec_val(body.take(i - from)) <= u64::MAX ==> acc == dec_val(
                body.take(i - from),
            ),
            ok && dec_val(body.take(i - from)) > u64::MAX ==> acc > u64::MAX,
        decreases n - i,
    {
        let c = s.get_char(i);
        let cv = c as u32;
        let ghost pre = body.take(i - from);
        let ghost pre2 = body.take(i + 1 - from);
        proof {
            assert(pre2.drop_last() =~= pre);
            assert(pre2.last() == s@[i as int]);
        }
        if cv < 48 || cv > 57 {
            proof {
                assert(body[i - from] == s@[i as int]);
                assert(!is_digit(body[i - from]));
            }
            ok = false;
            i = n;
        } else {
            let d: u128 = (cv - 48) as u128;
            proof {
                assert(is_digit(s@[i as int]));
                assert(digit_val(s@[i as int]) == d);
                assert(dec_val(pre2) == dec_val(pre) * 10 + d);
                if ok {
                    assert forall|j: int| 0 <= j < pre2.len() implies is_digit(
                        #[trigger] pre2[j],
                    ) by {
                        if j < pre.len() {
                            assert(pre2[j] == pre[j]);
                        }
                    }
                }
            }
            if acc > u64::MAX as u128 {
                proof {
                    if ok {
                        assert(dec_val(pre) > u64::MAX);
                        assert(dec_val(pre) * 10 >= dec_val(pre)) by {
                            assert(dec_val(pre) * 10 == dec_val(pre) + dec_val(pre) * 9);
                        }
                    }
                }
                acc = u64::MAX as u128 + 1;
            } else {
                acc = acc * 10 + d;
                proof {
                    if ok && dec_val(pre2) > u64::MAX {
                        if dec_val(pre) > u64::MAX {
                            assert(false);
                        }
                    }
                }
            }
            i = i + 1;
        }
    }
    proof {
        if ok {
            assert(body.take(n - from) =~= body);
        }
    }
    (ok, acc)
}

/// The standard grammar of an unsigned decimal integer: an optional leading
/// `+`, then one or more digits; `None` when malformed or out of range.
pub open spec fn parse_u32_str(s: Seq<char>) -> Option<u32> {
    let body = if s.len() > 0 && s[0] == '+' {
        s.drop_first()
    } else {
        s
    };
    if body.len() > 0 && all_digits(body) && dec_val(body) <= u32::MAX {
        Some(dec_val(body) as u32)
    } else {
        None
    }
}

/// See [`parse_u32_str`]; the same grammar with the `u64` range.
pub open spec fn parse_u64_str(s: Seq<char>) -> Option<u64> {
    let body = if s.len() > 0 && s[0] == '+' {
        s.drop_first()
    } else {
        s
    };
    if body.len() > 0 && all_digits(body) && dec_val(body) <= u64::MAX {
        Some(dec_val(body) as u64)
    } else {
        None
    }
}

/// The standard grammar of a signed decimal integer with the `i32` range.
pub open spec fn parse_i32_str(s: Seq<char>) -> Option<i32> {
    let neg = s.len() > 0 && s[0] == '-';
    let body = if s.len() > 0 && (s[0] == '+' || s[0] == '-') {
        s.drop_first()
    } else {
        s
    };
    if body.len() > 0 && all_digits(body) {
        if neg && dec_val(body) <= 0x8000_0000 {
            Some((0 - dec_val(body) as int) as i32)
        } else if !neg && dec_val(body) <= i32::MAX {
            Some(dec_val(body) as i32)
        } else {
            None
        }
    } else {
        None
    }
}

/// The standard grammar of a signed decimal integer with the `i64` range.
pub open spec fn parse_i64_str(s: Seq<char>) -> Option<i64> {
    let neg = s.len() > 0 && s[0] == '-';
    let body = if s.len() > 0 && (s[0] == '+' || s[0] == '-') {
        s.drop_first()
    } else {
        s
    };
    if body.len() > 0 && all_digits(body) {
        if neg && dec_val(body) <= 0x8000_0000_0000_0000 {
            Some((0 - dec_val(body) as int) as i64)
        } else if !neg && dec_val(body) <= i64::MAX {
            Some(dec_val(body) as i64)
        } else {
            None
        }
    } else {
        None
    }
}

fn scan_signed(s: &str) -> (r: (bool, bool, u128))
    ensures
        ({
            let neg = s@.len() > 0 && s@[0] == '-';
            let body = if s@.len() > 0 && (s@[0] == '+' || s@[0] == '-') {
                s@.drop_first()
            } else {
                s@
            };
            r.0 == neg && r.1 == (body.len() > 0 && all_digits(body)) && (r.1 && dec_val(body)
                <= u64::MAX ==> r.2 == dec_val(body)) && (r.1 && dec_val(body) > u64::MAX ==> r.2
                > u64::MAX)
        }),
{
    let n = s.unicode_len();
    let mut neg = false;
    let mut from: usize = 0;
    if n > 0 {
        let c0 = s.get_char(0);
        if c0 == '-' {
            neg = true;
            from = 1;
        } else if c0 == '+' {
            from = 1;
        }
    }
    proof {
        if from == 1 {
            assert(s@.skip(1) =~= s@.drop_first());
        } else {
            assert(s@.skip(0) =~= s@);
        }
    }
    let (ok, acc) = scan_digits(s, from);
    (neg, ok, acc)
}

/// Parses an unsigned 32-bit integer exactly as the standard library does.
pub fn parse_u32(s: &str) -> (r: Option<u32>)
    ensures
        r == parse_u32_str(s@),
{
    let (neg, ok, acc) = scan_signed(s);
    if !neg && ok && acc <= u32::MAX as u128 {
        Some(acc as u32)
    } else {
        None
    }
}

/// Parses an unsigned 64-bit integer exactly as the standard library does.
pub fn parse_u64(s: &str) -> (r: Option<u64>)
    ensures
        r == parse_u64_str(s@),
{
    let (neg, ok, acc) = scan_signed(s);
    if !neg && ok && acc <= u64::MAX as u128 {
        Some(acc as u64)
    } else {
        None
    }
}

/// Parses a signed 32-bit integer exactly as the standard library does.
pub fn parse_i32(s: &str) -> (r: Option<i32>)
    ensures
        r == parse_i32_str(s@),
{
    let (neg, ok, acc) = scan_signed(s);
    if !ok {
        None
    } else if neg && acc <= 0x8000_0000u128 {
        Some((0i64 - acc as i64) as i32)
    } else if !neg && acc <= i32::MAX as u128 {
        Some(acc as i32)
    } else {
        None
    }
}

/// Parses a signed 64-bit integer exactly as the standard library does.
pub fn parse_i64(s: &str) -> (r: Option<i64>)
    ensures
        r == parse_i64_str(s@),
{
    let (neg, ok, acc) = scan_signed(s);
    if !ok {
        None
    } else if neg && acc <= 0x8000_0000_0000_0000u128 {
        Some((0i128 - acc as i128) as i64)
    } else if !neg && acc <= i64::MAX as u128 {
        Some(acc as i64)
    } else {
        None
    }
}

/// The first position holding `a` or `b`, if any.
pub open spec fn find2(s: Seq<char>, a: char, b: char) -> Option<int>
    decreases s.len(),
{
    if s.len() == 0 {
        None
    } else if s[0] == a || s[0] == b {
        Some(0int)
    } else {
        match find2(s.drop_first(), a, b) {
            Some(j) => Some(j + 1),
            None => None,
        }
    }
}

proof fn lemma_find2_none(s: Seq<char>, a: char, b: char)
    requires
        forall|k: int| 0 <= k < s.len() ==> #[trigger] s[k] != a && s[k] != b,
    ensures
        find2(s, a, b) is None,
    decreases s.len(),
{
    if s.len() > 0 {
        assert(forall|k: int|
            0 <= k < s.drop_first().len() ==> #[trigger] s.drop_first()[k] == s[k + 1]);
        lemma_find2_none(s.drop_first(), a, b);
    }
}

proof fn lemma_find2_first(s: Seq<char>, a: char, b: char, i: int)
    requires
        0 <= i < s.len(),
        s[i] == a || s[i] == b,
        forall|k: int| 0 <= k < i ==> #[trigger] s[k] != a && s[k] != b,
    ensures
        find2(s, a, b) == Some(i),
    decreases s.len(),
{
    if i == 0 {
    } else {
        assert(forall|k: int|
            0 <= k < s.drop_first().len() ==> #[trigger] s.drop_first()[k] == s[k + 1]);
        lemma_find2_first(s.drop_first(), a, b, i - 1);
    }
}

proof fn lemma_find2_bounds(s: Seq<char>, a: char, b: char)
    ensures
        match find2(s, a, b) {
            Some(j) => 0 <= j < s.len(),
            None => true,
        },
    decreases s.len(),
{
    if s.len() > 0 && !(s[0] == a || s[0] == b) {
        lemma_find2_bounds(s.drop_first(), a, b);
    }
}

/// Finds the first occurrence of `a` or `b` in `s`.
pub fn find_char2(s: &str, a: char, b: char) -> (r: Option<usize>)
    ensures
        match r {
            Some(i) => find2(s@, a, b) == Some(i as int),
            None => find2(s@, a, b) is None,
        },
{
    let n = s.unicode_len();
    let mut i: usize = 0;
    while i < n
        invariant
            i <= n,
            n == s@.len(),
            forall|k: int| 0 <= k < i ==> #[trigger] s@[k] != a && s@[k] != b,
        decreases n - i,
    {
        let c = s.get_char(i);
        if c == a || c == b {
            proof {
                lemma_find2_first(s@, a, b, i as int);
            }
            return Some(i);
        }
        i = i + 1;
    }
    proof {
        lemma_find2_none(s@, a, b);
    }
    None
}

/// The exponent that may follow `e` in a floating-point literal: an optional
/// sign, then one or more digits.
pub open spec fn is_exp_part(p: Seq<char>) -> bool {
    let body = if p.len() > 0 && (p[0] == '+' || p[0] == '-') {
        p.drop_first()
    } else {
        p
    };
    body.len() > 0 && all_digits(body)
}

/// The mantissa of a floating-point literal: digits, digits then a point and
/// optional digits, or a point then digits.
pub open spec fn is_mantissa(m: Seq<char>) -> bool {
    match find2(m, '.', '.') {
        None => m.len() > 0 && all_digits(m),
        Some(d) => {
            let ip = m.take(d);
            let fp = m.skip(d + 1);
            if ip.len() == 0 {
                fp.len() > 0 && all_digits(fp)
            } else {
                all_digits(ip) && (fp.len() == 0 || all_digits(fp))
            }
        },
    }
}

/// The standard library's grammar for floating-point values: an optional
/// sign, then `inf`, `infinity` or `nan` ignoring case, or a mantissa with an
/// optional exponent. Every such literal parses to some floating-point value,
/// out-of-range magnitudes included, so a float cell is well-formed exactly
/// when its text matches this grammar.
pub open spec fn is_float_literal(s: Seq<char>) -> bool {
    let body = if s.len() > 0 && (s[0] == '+' || s[0] == '-') {
        s.drop_first()
    } else {
        s
    };
    eq_icase(body, "inf"@) || eq_icase(body, "infinity"@) || eq_icase(body, "nan"@) || (match find2(
        body,
        'e',
        'E',
    ) {
        None => is_mantissa(body),
        Some(e) => is_mantissa(body.take(e)) && is_exp_part(body.skip(e + 1)),
    })
}

fn is_exp_part_exec(s: &str, from: usize) -> (r: bool)
    requires
        from <= s@.len(),
    ensures
        r == is_exp_part(s@.skip(from as int)),
{
    let ghost p = s@.skip(from as int);
    let n = s.unicode_len();
    let mut start = from;
    if from < n {
        let c = s.get_char(from);
        if c == '+' || c == '-' {
            start = from + 1;
        }
    }
    proof {
        if start == from + 1 {
            assert(p.drop_first() =~= s@.skip(start as int));
        }
    }
    let (ok, _) = scan_digits(s, start);
    ok
}

fn is_mantissa_exec(s: &str, from: usize, to: usize) -> (r: bool)
    requires
        from <= to <= s@.len(),
    ensures
        r == is_mantissa(s@.subrange(from as int, to as int)),
{
    let m = s.substring_char(from, to);
    let ghost mv = s@.subrange(from as int, to as int);
    match find_char2(m, '.', '.') {
        None => {
            proof {
                assert(mv.skip(0) =~= mv);
            }
            let (ok, _) = scan_digits(m, 0);
            ok
        },
        Some(d) => {
            proof {
                lemma_find2_bounds(m@, '.', '.');
            }
            let ip = m.substring_char(0, d);
            proof {
                assert(ip@ =~= mv.take(d as int));
                assert(ip@.skip(0) =~= ip@);
            }
            let (ip_ok, _) = scan_digits(ip, 0);
            let (fp_ok, _) = scan_digits(m, d + 1);
            let fp_empty = d + 1 == m.unicode_len();
            let ghost fp = mv.skip(d + 1);
            if d == 0 {
                fp_ok
            } else {
                ip_ok && (fp_empty || fp_ok)
            }
        },
    }
}

/// Decides whether `s` matches the floating-point literal grammar.
pub fn is_float_literal_exec(s: &str) -> (r: bool)
    ensures
        r == is_float_literal(s@),
{
    let n = s.unicode_len();
    let mut from: usize = 0;
    if n > 0 {
        let c = s.get_char(0);
        if c == '+' || c == '-' {
            from = 1;
        }
    }
    let ghost body = if s@.len() > 0 && (s@[0] == '+' || s@[0] == '-') {
        s@.drop_first()
    } else {
        s@
    };
    let b = s.substring_char(from, n);
    proof {
        assert(b@ =~= body);
    }
    if crate::text::str_eq_icase(b, "inf") || crate::text::str_eq_icase(b, "infinity")
        || crate::text::str_eq_icase(b, "nan") {
        return true;
    }
    match find_char2(b, 'e', 'E') {
        None => {
            proof {
                assert(b@.subrange(0, b@.len() as int) =~= b@);
            }
            is_mantissa_exec(b, 0, b.unicode_len())
        },
        Some(e) => {
            proof {
                lemma_find2_bounds(b@, 'e', 'E');
                assert(b@.subrange(0, e as int) =~= b@.take(e as int));
            }
            is_mantissa_exec(b, 0, e) && is_exp_part_exec(b, e + 1)
        },
    }
}

} // verus!
