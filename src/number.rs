//! The numeric tokens of a sample line: float literals and unsigned counts.
use vstd::prelude::*;

use crate::text::{chars_of, find_char, index_of, lemma_index_of, slice_of};

verus! {

pub open spec fn is_digit(c: char) -> bool {
    '0' <= c && c <= '9'
}

pub open spec fn all_digits(s: Seq<char>) -> bool {
    forall|i: int| 0 <= i < s.len() ==> is_digit(#[trigger] s[i])
}

pub open spec fn is_sign(c: char) -> bool {
    c == '+' || c == '-'
}

/// `s` without a leading sign.
pub open spec fn unsigned_part(s: Seq<char>) -> Seq<char> {
    if s.len() > 0 && is_sign(s[0]) {
        s.drop_first()
    } else {
        s
    }
}

/// Upper-case form of the lower-case letters that the special float words use.
pub open spec fn upper_of(c: char) -> char {
    if c == 'a' {
        'A'
    } else if c == 'f' {
        'F'
    } else if c == 'i' {
        'I'
    } else if c == 'n' {
        'N'
    } else if c == 't' {
        'T'
    } else if c == 'y' {
        'Y'
    } else {
        c
    }
}

/// `s` spells the lower-case word `w`, ignoring case.
pub open spec fn spells(s: Seq<char>, w: Seq<char>) -> bool {
    s.len() == w.len() && forall|i: int|
        0 <= i < s.len() ==> #[trigger] s[i] == w[i] || s[i] == upper_of(w[i])
}

/// Index of the first exponent marker (`e` or `E`), or -1.
pub open spec fn exp_index(s: Seq<char>) -> int
    decreases s.len(),
{
    if s.len() == 0 {
        -1
    } else {
        let r = exp_index(s.drop_last());
        if r >= 0 {
            r
        } else if s.last() == 'e' || s.last() == 'E' {
            s.len() - 1
        } else {
            -1
        }
    }
}

/// `Digit+ | Digit+ '.' Digit* | Digit* '.' Digit+`
pub open spec fn is_mantissa(m: Seq<char>) -> bool {
    let d = index_of(m, '.');
    if d < 0 {
        m.len() > 0 && all_digits(m)
    } else {
        m.len() >= 2 && all_digits(m.subrange(0, d)) && all_digits(m.subrange(d + 1, m.len() as int))
    }
}

/// `Sign? Digit+`
pub open spec fn is_exponent(x: Seq<char>) -> bool {
    let y = unsigned_part(x);
    y.len() > 0 && all_digits(y)
}

/// A mantissa with an optional exponent.
pub open spec fn is_decimal(b: Seq<char>) -> bool {
    let e = exp_index(b);
    if e < 0 {
        is_mantissa(b)
    } else {
        is_mantissa(b.subrange(0, e)) && is_exponent(b.subrange(e + 1, b.len() as int))
    }
}

/// The float grammar that `f64::from_str` documents:
/// `Sign? ( 'inf' | 'infinity' | 'nan' | Number )`, case-insensitive.
pub open spec fn is_float_literal(t: Seq<char>) -> bool {
    let b = unsigned_part(t);
    ||| spells(b, "inf"@)
    ||| spells(b, "infinity"@)
    ||| spells(b, "nan"@)
    ||| is_decimal(b)
}

pub open spec fn digit_value(c: char) -> int {
    (c as int) - ('0' as int)
}

/// The number that a string of decimal digits denotes.
pub open spec fn digits_value(s: Seq<char>) -> int
    decreases s.len(),
{
    if s.len() == 0 {
        0
    } else {
        digits_value(s.drop_last()) * 10 + digit_value(s.last())
    }
}

pub open spec fn pow10(n: nat) -> int
    decreases n,
{
    if n == 0 {
        1
    } else {
        10 * pow10((n - 1) as nat)
    }
}

/// The digits of a mantissa, without its point.
pub open spec fn without_point(m: Seq<char>) -> Seq<char> {
    let d = index_of(m, '.');
    if d < 0 {
        m
    } else {
        m.subrange(0, d) + m.subrange(d + 1, m.len() as int)
    }
}

/// Number of digits of a mantissa before its point.
pub open spec fn int_len(m: Seq<char>) -> int {
    let d = index_of(m, '.');
    if d < 0 {
        m.len() as int
    } else {
        d
    }
}

/// The value of an exponent `Sign? Digit+`.
pub open spec fn exponent_value(x: Seq<char>) -> int {
    if x.len() > 0 && x[0] == '-' {
        -digits_value(x.drop_first())
    } else {
        digits_value(unsigned_part(x))
    }
}

/// The mantissa of a decimal literal.
pub open spec fn mantissa_of(b: Seq<char>) -> Seq<char> {
    let e = exp_index(b);
    if e < 0 {
        b
    } else {
        b.subrange(0, e)
    }
}

/// The exponent of a decimal literal, 0 when it has none.
pub open spec fn exponent_of(b: Seq<char>) -> int {
    let e = exp_index(b);
    if e < 0 {
        0
    } else {
        exponent_value(b.subrange(e + 1, b.len() as int))
    }
}

/// The integer part of the number whose digits are `ds` with the point after the first `p`.
pub open spec fn shifted_value(ds: Seq<char>, p: int) -> int {
    if p <= 0 {
        0
    } else if p <= ds.len() {
        digits_value(ds.subrange(0, p))
    } else {
        digits_value(ds) * pow10((p - ds.len()) as nat)
    }
}

/// The value of a decimal literal, truncated towards zero.
pub open spec fn truncated_value(b: Seq<char>) -> int {
    let m = mantissa_of(b);
    shifted_value(without_point(m), int_len(m) + exponent_of(b))
}

/// A count written as a non-negative decimal float literal (`6563`, `12.9`, `1e3`, `+2.5E1`):
/// its value truncated towards zero, `u64::MAX` when larger, as a float-to-`u64` cast gives.
pub open spec fn count_of(t: Seq<char>) -> Option<u64> {
    let b = if t.len() > 0 && t[0] == '+' {
        t.drop_first()
    } else {
        t
    };
    if is_decimal(b) {
        Some(
            if truncated_value(b) > u64::MAX {
                u64::MAX
            } else {
                truncated_value(b) as u64
            },
        )
    } else {
        None
    }
}

proof fn lemma_pow10_grows(n: nat)
    ensures
        pow10(n) >= 1,
        n >= 20 ==> pow10(n) > u64::MAX,
    decreases n,
{
    if n > 0 {
        lemma_pow10_grows((n - 1) as nat);
        if n == 20 {
            reveal_with_fuel(pow10, 21);
            assert(pow10(20) == 100000000000000000000);
        }
    }
}

proof fn lemma_all_digits_concat(a: Seq<char>, b: Seq<char>)
    requires
        all_digits(a),
        all_digits(b),
    ensures
        all_digits(a + b),
{
    assert forall|i: int| 0 <= i < (a + b).len() implies is_digit(#[trigger] (a + b)[i]) by {
        if i < a.len() {
            assert((a + b)[i] == a[i]);
        } else {
            assert((a + b)[i] == b[i - a.len()]);
        }
    }
}

proof fn lemma_digits_value_grows(s: Seq<char>, k: int)
    requires
        all_digits(s),
        0 <= k <= s.len(),
    ensures
        0 <= digits_value(s.subrange(0, k)) <= digits_value(s),
    decreases s.len(),
{
    if s.len() > 0 {
        let t = s.drop_last();
        assert(all_digits(t)) by {
            assert forall|i: int| 0 <= i < t.len() implies is_digit(#[trigger] t[i]) by {
                assert(t[i] == s[i]);
            }
        }
        assert(is_digit(s[s.len() - 1]));
        if k == s.len() {
            assert(s.subrange(0, k) =~= s);
            lemma_digits_value_grows(t, t.len() as int);
            assert(t.subrange(0, t.len() as int) =~= t);
        } else {
            lemma_digits_value_grows(t, k);
            assert(t.subrange(0, k) =~= s.subrange(0, k));
            lemma_digits_value_grows(t, t.len() as int);
            assert(t.subrange(0, t.len() as int) =~= t);
        }
    } else {
        assert(s.subrange(0, k) =~= s);
    }
}

fn is_digit_char(c: char) -> (r: bool)
    ensures
        r == is_digit(c),
{
    '0' <= c && c <= '9'
}

fn upper_char(c: char) -> (r: char)
    ensures
        r == upper_of(c),
{
    if c == 'a' {
        'A'
    } else if c == 'f' {
        'F'
    } else if c == 'i' {
        'I'
    } else if c == 'n' {
        'N'
    } else if c == 't' {
        'T'
    } else if c == 'y' {
        'Y'
    } else {
        c
    }
}

/// Whether `s[from..to]` is made of decimal digits only.
fn digits_only(s: &[char], from: usize, to: usize) -> (r: bool)
    requires
        from <= to <= s@.len(),
    ensures
        r == all_digits(s@.subrange(from as int, to as int)),
{
    let mut i = from;
    while i < to
        invariant
            from <= i <= to <= s@.len(),
            forall|k: int| from <= k < i ==> is_digit(#[trigger] s@[k]),
        decreases to - i,
    {
        if !is_digit_char(s[i]) {
            assert(s@.subrange(from as int, to as int)[i - from] == s@[i as int]);
            return false;
        }
        i = i + 1;
    }
    assert forall|k: int| 0 <= k < to - from implies is_digit(
        #[trigger] s@.subrange(from as int, to as int)[k],
    ) by {
        assert(s@.subrange(from as int, to as int)[k] == s@[from + k]);
    }
    true
}

/// Whether `s[from..to]` spells the lower-case word `w`, ignoring case.
fn spells_word(s: &[char], from: usize, to: usize, w: &[char]) -> (r: bool)
    requires
        from <= to <= s@.len(),
    ensures
        r == spells(s@.subrange(from as int, to as int), w@),
{
    let ghost t = s@.subrange(from as int, to as int);
    if to - from != w.len() {
        return false;
    }
    let mut i: usize = 0;
    while i < w.len()
        invariant
            from <= to <= s@.len(),
            t == s@.subrange(from as int, to as int),
            to - from == w@.len(),
            i <= w@.len(),
            forall|k: int| 0 <= k < i ==> #[trigger] t[k] == w@[k] || t[k] == upper_of(w@[k]),
        decreases w@.len() - i,
    {
        let c = s[from + i];
        assert(t[i as int] == c);
        if c != w[i] && c != upper_char(w[i]) {
            return false;
        }
        i = i + 1;
    }
    true
}

/// Position of the first exponent marker in `s[from..to]`, relative to `from`.
fn find_exp(s: &[char], from: usize, to: usize) -> (r: Option<usize>)
    requires
        from <= to <= s@.len(),
    ensures
        match r {
            Some(i) => i as int == exp_index(s@.subrange(from as int, to as int)),
            None => exp_index(s@.subrange(from as int, to as int)) == -1,
        },
{
    let mut found: Option<usize> = None;
    let mut i = from;
    while i < to
        invariant
            from <= i <= to <= s@.len(),
            match found {
                Some(k) => k as int == exp_index(s@.subrange(from as int, i as int)),
                None => exp_index(s@.subrange(from as int, i as int)) == -1,
            },
        decreases to - i,
    {
        assert(s@.subrange(from as int, i + 1).drop_last() =~= s@.subrange(from as int, i as int));
        if found.is_none() && (s[i] == 'e' || s[i] == 'E') {
            found = Some(i - from);
        }
        i = i + 1;
    }
    found
}

/// Whether `s[from..to]` is a mantissa.
fn mantissa_ok(s: &[char], from: usize, to: usize) -> (r: bool)
    requires
        from <= to <= s@.len(),
    ensures
        r == is_mantissa(s@.subrange(from as int, to as int)),
{
    let ghost m = s@.subrange(from as int, to as int);
    let part = slice_of(s, from, to);
    match find_char(&part, '.') {
        None => to > from && digits_only(s, from, to),
        Some(d) => {
            proof {
                lemma_index_of(m, '.');
            }
            assert(m.subrange(0, d as int) =~= s@.subrange(from as int, from + d));
            assert(m.subrange(d + 1, m.len() as int) =~= s@.subrange(from + d + 1, to as int));
            to - from >= 2 && digits_only(s, from, from + d) && digits_only(s, from + d + 1, to)
        },
    }
}

/// Whether `s[from..to]` is an exponent (`Sign? Digit+`).
fn exponent_ok(s: &[char], from: usize, to: usize) -> (r: bool)
    requires
        from <= to <= s@.len(),
    ensures
        r == is_exponent(s@.subrange(from as int, to as int)),
{
    let ghost x = s@.subrange(from as int, to as int);
    if from < to && (s[from] == '+' || s[from] == '-') {
        assert(x.drop_first() =~= s@.subrange(from + 1, to as int));
        from + 1 < to && digits_only(s, from + 1, to)
    } else {
        from < to && digits_only(s, from, to)
    }
}

/// Whether `t` is a float literal.
pub fn float_literal_ok(t: &[char]) -> (r: bool)
    ensures
        r == is_float_literal(t@),
{
    let start: usize = if t.len() > 0 && (t[0] == '+' || t[0] == '-') {
        1
    } else {
        0
    };
    let end = t.len();
    let ghost b = unsigned_part(t@);
    assert(b =~= t@.subrange(start as int, end as int));
    let inf = chars_of("inf");
    let infinity = chars_of("infinity");
    let nan = chars_of("nan");
    if spells_word(t, start, end, &inf) || spells_word(t, start, end, &infinity) || spells_word(
        t,
        start,
        end,
        &nan,
    ) {
        return true;
    }
    match find_exp(t, start, end) {
        None => mantissa_ok(t, start, end),
        Some(e) => {
            proof {
                lemma_exp_index_bound(b);
            }
            assert(b.subrange(0, e as int) =~= t@.subrange(start as int, start + e));
            assert(b.subrange(e + 1, b.len() as int) =~= t@.subrange(start + e + 1, end as int));
            mantissa_ok(t, start, start + e) && exponent_ok(t, start + e + 1, end)
        },
    }
}

proof fn lemma_exp_index_bound(s: Seq<char>)
    ensures
        -1 <= exp_index(s) < s.len(),
    decreases s.len(),
{
    if s.len() > 0 {
        lemma_exp_index_bound(s.drop_last());
    }
}

/// `min(digits_value(s[from..to]), cap)`.
fn digits_sat(s: &[char], from: usize, to: usize, cap: u128) -> (r: u128)
    requires
        from <= to <= s@.len(),
        all_digits(s@.subrange(from as int, to as int)),
        cap <= 0x1_0000_0000_0000_0000_0000u128,
    ensures
        r == vstd::math::min(digits_value(s@.subrange(from as int, to as int)), cap as int),
{
    let ghost ds = s@.subrange(from as int, to as int);
    let mut cur: u128 = 0;
    let mut i = from;
    assert(s@.subrange(from as int, from as int) =~= Seq::<char>::empty());
    if cap == 0 {
        proof {
            lemma_digits_value_grows(ds, 0);
        }
        return 0;
    }
    while i < to
        invariant
            from <= i <= to <= s@.len(),
            ds == s@.subrange(from as int, to as int),
            all_digits(ds),
            0 < cap <= 0x1_0000_0000_0000_0000_0000u128,
            cur == vstd::math::min(digits_value(s@.subrange(from as int, i as int)), cap as int),
        decreases to - i,
    {
        let c = s[i];
        assert(ds[i - from] == c);
        assert(is_digit(c));
        let dgt = (c as u32 - '0' as u32) as u128;
        let ghost pre = s@.subrange(from as int, i as int);
        assert(s@.subrange(from as int, i + 1).drop_last() =~= pre);
        assert(s@.subrange(from as int, i + 1).last() == c);
        assert(dgt == digit_value(c));
        proof {
            assert(pre =~= ds.subrange(0, i - from));
            lemma_digits_value_grows(ds, i - from);
        }
        if cur < cap {
            let next = cur * 10 + dgt;
            cur = if next > cap {
                cap
            } else {
                next
            };
        }
        i = i + 1;
    }
    cur
}

/// Whether `t[start..end]` is a decimal literal.
fn decimal_ok(t: &[char], start: usize, end: usize) -> (r: bool)
    requires
        start <= end <= t@.len(),
    ensures
        r == is_decimal(t@.subrange(start as int, end as int)),
{
    let ghost b = t@.subrange(start as int, end as int);
    match find_exp(t, start, end) {
        None => mantissa_ok(t, start, end),
        Some(e) => {
            proof {
                lemma_exp_index_bound(b);
            }
            assert(b.subrange(0, e as int) =~= t@.subrange(start as int, start + e));
            assert(b.subrange(e + 1, b.len() as int) =~= t@.subrange(start + e + 1, end as int));
            mantissa_ok(t, start, start + e) && exponent_ok(t, start + e + 1, end)
        },
    }
}

/// `min(shifted_value(ds, p), u64::MAX)`.
fn shifted_count(ds: &Vec<char>, p: i128) -> (r: u64)
    requires
        all_digits(ds@),
    ensures
        r == vstd::math::min(shifted_value(ds@, p as int), u64::MAX as int),
{
    let max: u128 = 0xFFFF_FFFF_FFFF_FFFFu128;
    let len = ds.len();
    assert(ds@.subrange(0, len as int) =~= ds@);
    if p <= 0 {
        return 0;
    }
    if p <= len as i128 {
        proof {
            assert forall|i: int| 0 <= i < p implies is_digit(#[trigger] ds@.subrange(0, p as int)[i]) by {
                assert(ds@.subrange(0, p as int)[i] == ds@[i]);
            }
        }
        return digits_sat(ds.as_slice(), 0, p as usize, max) as u64;
    }
    let steps = (p - len as i128) as u128;
    let mut cur = digits_sat(ds.as_slice(), 0, len, max);
    let mut k: u128 = 0;
    proof {
        lemma_digits_value_grows(ds@, 0);
    }
    while k < steps
        invariant
            k <= steps,
            max == 0xFFFF_FFFF_FFFF_FFFFu128,
            digits_value(ds@) >= 0,
            cur == vstd::math::min(digits_value(ds@) * pow10(k as nat), max as int),
        decreases steps - k,
    {
        let ghost dv = digits_value(ds@);
        let ghost pk = pow10(k as nat);
        proof {
            lemma_pow10_grows(k as nat);
            assert(pow10((k + 1) as nat) == 10 * pk);
            assert(dv * (10 * pk) == 10 * (dv * pk)) by (nonlinear_arith);
            assert(dv * pk >= 0) by (nonlinear_arith)
                requires
                    dv >= 0,
                    pk >= 1,
            ;
        }
        if cur < max {
            let next = cur * 10;
            cur = if next > max {
                max
            } else {
                next
            };
        }
        k = k + 1;
    }
    cur as u64
}

/// The digits of the mantissa `t[from..to]` without its point, and how many come before it.
fn mantissa_digits(t: &[char], from: usize, to: usize) -> (r: (usize, Vec<char>))
    requires
        from <= to <= t@.len(),
        is_mantissa(t@.subrange(from as int, to as int)),
    ensures
        r.1@ == without_point(t@.subrange(from as int, to as int)),
        r.0 as int == int_len(t@.subrange(from as int, to as int)),
        r.0 <= to - from,
        r.1@.len() <= to - from,
        all_digits(r.1@),
{
    let ghost m = t@.subrange(from as int, to as int);
    let mant = slice_of(t, from, to);
    match find_char(&mant, '.') {
        None => {
            let il = mant.len();
            (il, mant)
        },
        Some(d) => {
            proof {
                lemma_index_of(m, '.');
                lemma_all_digits_concat(m.subrange(0, d as int), m.subrange(d + 1, m.len() as int));
            }
            let mut ds = slice_of(&mant, 0, d);
            let mut rest = slice_of(&mant, d + 1, mant.len());
            ds.append(&mut rest);
            (d, ds)
        },
    }
}

/// The count that `t` writes, when it is one.
#[verifier::rlimit(60)]
pub fn parse_count(t: &[char]) -> (r: Option<u64>)
    ensures
        r == count_of(t@),
{
    let n = t.len();
    let start: usize = if n > 0 && t[0] == '+' {
        1
    } else {
        0
    };
    let ghost b = if t@.len() > 0 && t@[0] == '+' {
        t@.drop_first()
    } else {
        t@
    };
    assert(b =~= t@.subrange(start as int, n as int));
    if !decimal_ok(t, start, n) {
        return None;
    }
    let e = find_exp(t, start, n);
    proof {
        lemma_exp_index_bound(b);
    }
    let mend = match e {
        None => n,
        Some(e) => start + e,
    };
    let ghost m = mantissa_of(b);
    assert(m =~= t@.subrange(start as int, mend as int));
    let (il, ds) = mantissa_digits(t, start, mend);
    let e = match e {
        None => {
            assert(exponent_of(b) == 0);
            return Some(shifted_count(&ds, il as i128));
        },
        Some(e) => e,
    };
    let x0 = start + e + 1;
    let ghost x = b.subrange(e + 1, b.len() as int);
    assert(x =~= t@.subrange(x0 as int, n as int));
    let neg = x0 < n && t[x0] == '-';
    let xd = if x0 < n && (t[x0] == '-' || t[x0] == '+') {
        x0 + 1
    } else {
        x0
    };
    let ghost y = t@.subrange(xd as int, n as int);
    assert(neg ==> x.drop_first() =~= y);
    assert(!neg ==> unsigned_part(x) =~= y);
    assert(neg ==> exponent_of(b) == -digits_value(y));
    assert(!neg ==> exponent_of(b) == digits_value(y));
    let cap: u128 = n as u128 + 21;
    let ev = digits_sat(t, xd, n, cap);
    if ev < cap {
        let p: i128 = if neg {
            il as i128 - ev as i128
        } else {
            il as i128 + ev as i128
        };
        return Some(shifted_count(&ds, p));
    }
    assert(digits_value(y) >= n + 21);
    if neg {
        assert(int_len(m) + exponent_of(b) <= 0);
        return Some(0);
    }
    let whole = shifted_count(&ds, ds.len() as i128);
    assert(ds@.subrange(0, ds@.len() as int) =~= ds@);
    proof {
        lemma_digits_value_grows(ds@, 0);
    }
    assert(int_len(m) + exponent_of(b) > ds@.len());
    if whole == 0 {
        assert(digits_value(ds@) == 0);
        assert(truncated_value(b) == 0);
        return Some(0);
    }
    proof {
        let k = (int_len(m) + exponent_of(b) - ds@.len()) as nat;
        assert(ds@.len() <= m.len());
        lemma_pow10_grows(k);
        let dv = digits_value(ds@);
        assert(dv >= 1);
        assert(dv * pow10(k) >= pow10(k)) by (nonlinear_arith)
            requires
                dv >= 1,
                pow10(k) >= 1,
        ;
    }
    Some(u64::MAX)
}

} // verus!
