//! Human-friendly size input. Accepts plain numbers (interpreted as MB) or a
//! suffix: `M`/`MB`/`MiB`, `G`/`GB`/`GiB`, `T`/`TB`/`TiB`, in any letter case.
//! Everything is normalized to a whole number of MB.
//!
//! The number is read exactly, as a decimal fraction: an input is accepted
//! exactly when it denotes a whole number of MB between 1 and `u32::MAX`.

use vstd::prelude::*;
use crate::text::{
    all_digits, chars_of, is_letter, is_point, decimal, digit_value, digits_value, find_char_in_range, first_where,
    is_alphabetic, is_ascii_alpha, capped_digits, is_ascii_digit, is_digit, lemma_first_where,
    lemma_pow10_positive, pow10, push_char, is_ws, trim_start, trim_end, push_decimal, to_upper, trim, trim_range, upper_seq,
    ascii_upper,
};
use vstd::arithmetic::div_mod::*;
use vstd::arithmetic::mul::*;

verus! {

/// A size in MB.
#[derive(Clone, Copy, Debug, PartialEq, Eq, Structural)]
pub struct SizeMb(pub u32);

/// Why a size text was refused.
#[derive(Clone, Copy, Debug, PartialEq, Eq, Structural)]
pub enum SizeError {
    /// Nothing but white space.
    Empty,
    /// The part before the unit is not a decimal number.
    NotANumber,
    /// The number is below zero.
    Negative,
    /// The unit is none of M, MB, MIB, G, GB, GIB, T, TB, TIB (any case).
    UnknownUnit,
    /// The size is below 1 MB.
    TooSmall,
    /// The size is above `u32::MAX` MB.
    TooLarge,
    /// The size is not a whole number of MB.
    NotWhole,
}

pub const MB_PER_GB: u32 = 1024;

pub const MB_PER_TB: u32 = 1048576;

/// The number of MB that one unit stands for, by its upper-cased spelling.
pub open spec fn unit_factor(u: Seq<char>) -> Option<nat> {
    if u == Seq::<char>::empty() || u == seq!['M'] || u == seq!['M', 'B'] || u == seq![
        'M',
        'I',
        'B',
    ] {
        Some(1)
    } else if u == seq!['G'] || u == seq!['G', 'B'] || u == seq!['G', 'I', 'B'] {
        Some(1024)
    } else if u == seq!['T'] || u == seq!['T', 'B'] || u == seq!['T', 'I', 'B'] {
        Some(1048576)
    } else {
        None
    }
}

/// A decimal number as `f64::from_str` reads it when it holds no letter:
/// an optional sign, then digits with at most one `.`, and at least one digit.
/// Gives the sign (true for `-`), the digits before the point and those after it.
pub open spec fn split_decimal(num: Seq<char>) -> Option<(bool, Seq<char>, Seq<char>)> {
    let negative = num.len() > 0 && num[0] == '-';
    let body = if num.len() > 0 && (num[0] == '+' || num[0] == '-') {
        num.drop_first()
    } else {
        num
    };
    let dot = first_where(body, is_point(), 0);
    let whole = body.take(dot);
    let frac = if dot < body.len() {
        body.skip(dot + 1)
    } else {
        Seq::<char>::empty()
    };
    if all_digits(whole) && all_digits(frac) && (whole.len() > 0 || frac.len() > 0) {
        Some((negative, whole, frac))
    } else {
        None
    }
}

/// What a size text means: the trimmed text is cut before its first ASCII
/// letter into a number and a unit, each trimmed; the unit is compared
/// without regard to case. With `n / 10^k` the number and `m` the unit's
/// factor, the size is `n * m / 10^k` MB, which must be whole and in range.
pub open spec fn size_from_text(s: Seq<char>) -> Result<u32, SizeError> {
    let t = trim(s);
    if t.len() == 0 {
        Err(SizeError::Empty)
    } else {
        let split = first_where(t, is_letter(), 0);
        let num = trim(t.take(split));
        let unit = upper_seq(trim(t.skip(split)));
        match split_decimal(num) {
            None => Err(SizeError::NotANumber),
            Some((negative, whole, frac)) => {
                let n = digits_value(whole + frac);
                let q = pow10(frac.len());
                if negative && n > 0 {
                    Err(SizeError::Negative)
                } else {
                    match unit_factor(unit) {
                        None => Err(SizeError::UnknownUnit),
                        Some(m) => {
                            if n * m < q {
                                Err(SizeError::TooSmall)
                            } else if n * m > u32::MAX * q {
                                Err(SizeError::TooLarge)
                            } else if (n * m) % q != 0 {
                                Err(SizeError::NotWhole)
                            } else {
                                Ok(((n * m) / q) as u32)
                            }
                        },
                    }
                }
            },
        }
    }
}

/// The compact text of a size: the largest of T, G and M that divides it evenly.
pub open spec fn size_text(mb: nat) -> Seq<char> {
    if mb >= 1048576 && mb % 1048576 == 0 {
        decimal(mb / 1048576).push('T')
    } else if mb >= 1024 && mb % 1024 == 0 {
        decimal(mb / 1024).push('G')
    } else {
        decimal(mb).push('M')
    }
}

// ---------------------------------------------------------------------------
// Facts about digit strings
// ---------------------------------------------------------------------------

proof fn lemma_digits_concat(a: Seq<char>, b: Seq<char>)
    ensures
        digits_value(a + b) == digits_value(a) * pow10(b.len()) + digits_value(b),
    decreases b.len(),
{
    if b.len() == 0 {
        assert(a + b =~= a);
        assert(pow10(0) == 1);
        assert(digits_value(a) * 1 == digits_value(a));
    } else {
        let b1 = b.drop_last();
        assert((a + b).drop_last() =~= a + b1);
        assert((a + b).last() == b.last());
        lemma_digits_concat(a, b1);
        let va = digits_value(a);
        let vb1 = digits_value(b1);
        let p = pow10(b1.len());
        let d = digit_value(b.last());
        assert(digits_value(a + b) == digits_value(a + b1) * 10 + d);
        assert(digits_value(b) == vb1 * 10 + d);
        assert(pow10(b.len()) == 10 * p);
        assert((va * p + vb1) * 10 + d == va * (10 * p) + (vb1 * 10 + d)) by (nonlinear_arith);
        assert(va * pow10(b.len()) == va * (10 * p));
    }
}

proof fn lemma_digits_first(s: Seq<char>)
    requires
        s.len() >= 1,
    ensures
        digits_value(s) == digit_value(s[0]) * pow10((s.len() - 1) as nat) + digits_value(
            s.drop_first(),
        ),
{
    let a = seq![s[0]];
    assert(a + s.drop_first() =~= s);
    lemma_digits_concat(a, s.drop_first());
    assert(a.drop_last() =~= Seq::<char>::empty());
    assert(digits_value(a) == digits_value(a.drop_last()) * 10 + digit_value(a.last()));
    assert(s.drop_first().len() == (s.len() - 1) as nat);
}

proof fn lemma_digits_bound(s: Seq<char>)
    requires
        all_digits(s),
    ensures
        digits_value(s) < pow10(s.len()),
    decreases s.len(),
{
    if s.len() > 0 {
        let s1 = s.drop_last();
        assert(all_digits(s1)) by {
            assert forall|i: int| 0 <= i < s1.len() implies is_ascii_digit(#[trigger] s1[i]) by {
                assert(s1[i] == s[i]);
            }
        }
        assert(is_ascii_digit(s[s.len() - 1]));
        lemma_digits_bound(s1);
    }
}

proof fn lemma_digits_zero(s: Seq<char>)
    requires
        all_digits(s),
    ensures
        digits_value(s) == 0 <==> forall|i: int| 0 <= i < s.len() ==> s[i] == '0',
    decreases s.len(),
{
    if s.len() > 0 {
        let s1 = s.drop_last();
        assert(all_digits(s1)) by {
            assert forall|i: int| 0 <= i < s1.len() implies is_ascii_digit(#[trigger] s1[i]) by {
                assert(s1[i] == s[i]);
            }
        }
        assert(is_ascii_digit(s[s.len() - 1]));
        lemma_digits_zero(s1);
        if digits_value(s) == 0 {
            assert forall|i: int| 0 <= i < s.len() implies s[i] == '0' by {
                if i < s.len() - 1 {
                    assert(s1[i] == s[i]);
                }
            }
        }
        if forall|i: int| 0 <= i < s.len() ==> s[i] == '0' {
            assert forall|i: int| 0 <= i < s1.len() implies s1[i] == '0' by {
                assert(s[i] == '0');
            }
            assert(s[s.len() - 1] == '0');
        }
    }
}

/// One step of reading the fraction digits from the right: with `f` the value of
/// the `l` digits read so far, the quotient of `f * m` by `10^l` and whether that
/// division is exact determine the same for one more digit `d` in front.
proof fn lemma_frac_step(d: int, f: int, l: nat, m: int, q: int, exact: bool)
    requires
        0 <= d < 10,
        f >= 0,
        m > 0,
        q == (f * m) / (pow10(l) as int),
        exact == ((f * m) % (pow10(l) as int) == 0),
    ensures
        ((d * pow10(l) + f) * m) / (pow10(l + 1) as int) == (d * m + q) / 10,
        (((d * pow10(l) + f) * m) % (pow10(l + 1) as int) == 0) == (exact && (d * m + q) % 10
            == 0),
{
    let p = pow10(l) as int;
    lemma_pow10_positive(l);
    assert(pow10(l + 1) == 10 * pow10(l));
    let x = (d * p + f) * m;
    let r = (f * m) % p;
    lemma_fundamental_div_mod(f * m, p);
    assert(f * m == p * q + r);
    assert(x == (d * m + q) * p + r) by (nonlinear_arith)
        requires
            x == (d * p + f) * m,
            f * m == p * q + r,
    ;
    lemma_mod_bound(f * m, p);
    lemma_fundamental_div_mod_converse(x, p, d * m + q, r);
    assert(x / p == d * m + q);
    assert(x % p == r);
    lemma_div_denominator(x, p, 10);
    assert(p * 10 == pow10(l + 1));
    lemma_breakdown(x, p, 10);
    lemma_mod_bound(x / p, 10);
    assert(x % (p * 10) == p * ((x / p) % 10) + x % p);
    assert((x % (p * 10) == 0) == ((x / p) % 10 == 0 && r == 0)) by (nonlinear_arith)
        requires
            p > 0,
            (x / p) % 10 >= 0,
            r >= 0,
            x % (p * 10) == p * ((x / p) % 10) + r,
    ;
}

/// How the value of the number and its unit factor determine the outcome:
/// `i` is the value of the digits before the point (`cap` the same, capped at
/// `2^32`), `f` that of the `k` digits after it, and `q`, `exact` as read by
/// the fraction scan.
proof fn lemma_size_outcome(i: int, f: int, k: nat, m: int, q: int, exact: bool, cap: int)
    requires
        i >= 0,
        f >= 0,
        m > 0,
        f < pow10(k),
        q == (f * m) / (pow10(k) as int),
        exact == ((f * m) % (pow10(k) as int) == 0),
        cap == if i < 0x1_0000_0000 {
            i
        } else {
            0x1_0000_0000
        },
    ensures
        ({
            let n = i * pow10(k) + f;
            let p = pow10(k) as int;
            let fl = cap * m + q;
            &&& (n * m < p) == (fl == 0)
            &&& (n * m > u32::MAX * p) == (fl > u32::MAX || (fl == u32::MAX && !exact))
            &&& ((n * m) % p == 0) == exact
            &&& fl <= u32::MAX ==> (n * m) / p == fl
        }),
{
    let p = pow10(k) as int;
    lemma_pow10_positive(k);
    let n = i * p + f;
    let r = (f * m) % p;
    lemma_fundamental_div_mod(f * m, p);
    lemma_mod_bound(f * m, p);
    lemma_div_pos_is_pos(f * m, p);
    let fl = i * m + q;
    assert(n * m == fl * p + r) by (nonlinear_arith)
        requires
            n == i * p + f,
            f * m == p * q + r,
            fl == i * m + q,
    ;
    lemma_fundamental_div_mod_converse(n * m, p, fl, r);
    if i >= 0x1_0000_0000 {
        assert(i * m >= 0x1_0000_0000) by (nonlinear_arith)
            requires
                i >= 0x1_0000_0000,
                m >= 1,
        ;
        assert(cap * m >= 0x1_0000_0000) by (nonlinear_arith)
            requires
                cap == 0x1_0000_0000,
                m >= 1,
        ;
    }
    assert(i * m >= 0) by (nonlinear_arith)
        requires
            i >= 0,
            m >= 1,
    ;
    assert((n * m < p) == (fl == 0)) by (nonlinear_arith)
        requires
            n * m == fl * p + r,
            0 <= r < p,
            fl >= 0,
    ;
    assert((n * m > u32::MAX * p) == (fl > u32::MAX || (fl == u32::MAX && r != 0)))
        by (nonlinear_arith)
        requires
            n * m == fl * p + r,
            0 <= r < p,
            fl >= 0,
    ;
}

proof fn lemma_unit_literals()
    ensures
        seq!['M'].len() == 1 && seq!['M'][0] == 'M',
        seq!['G'].len() == 1 && seq!['G'][0] == 'G',
        seq!['T'].len() == 1 && seq!['T'][0] == 'T',
        seq!['M', 'B'].len() == 2 && seq!['M', 'B'][0] == 'M' && seq!['M', 'B'][1] == 'B',
        seq!['G', 'B'].len() == 2 && seq!['G', 'B'][0] == 'G' && seq!['G', 'B'][1] == 'B',
        seq!['T', 'B'].len() == 2 && seq!['T', 'B'][0] == 'T' && seq!['T', 'B'][1] == 'B',
        seq!['M', 'I', 'B'].len() == 3 && seq!['M', 'I', 'B'][0] == 'M' && seq!['M', 'I', 'B'][1]
            == 'I' && seq!['M', 'I', 'B'][2] == 'B',
        seq!['G', 'I', 'B'].len() == 3 && seq!['G', 'I', 'B'][0] == 'G' && seq!['G', 'I', 'B'][1]
            == 'I' && seq!['G', 'I', 'B'][2] == 'B',
        seq!['T', 'I', 'B'].len() == 3 && seq!['T', 'I', 'B'][0] == 'T' && seq!['T', 'I', 'B'][1]
            == 'I' && seq!['T', 'I', 'B'][2] == 'B',
{
}

// ---------------------------------------------------------------------------
// The parser
// ---------------------------------------------------------------------------

/// The factor of the unit written in `v[a..b]`, compared without regard to case.
fn unit_factor_of(v: &Vec<char>, a: usize, b: usize) -> (r: Option<u32>)
    requires
        a <= b <= v.len(),
    ensures
        match r {
            Some(m) => unit_factor(upper_seq(v@.subrange(a as int, b as int))) == Some(
                m as nat,
            ),
            None => unit_factor(upper_seq(v@.subrange(a as int, b as int))) is None,
        },
{
    let ghost u = upper_seq(v@.subrange(a as int, b as int));
    proof {
        lemma_unit_literals();
    }
    let len = b - a;
    assert(u.len() == len);
    if len == 0 {
        assert(u =~= Seq::<char>::empty());
        return Some(1);
    }
    if len > 3 {
        return None;
    }
    let c0 = to_upper(v[a]);
    assert(u[0] == c0);
    let factor: u32 = if c0 == 'M' {
        1
    } else if c0 == 'G' {
        MB_PER_GB
    } else if c0 == 'T' {
        MB_PER_TB
    } else {
        return None;
    };
    if len == 1 {
        assert(u =~= seq![c0]);
        return Some(factor);
    }
    let c1 = to_upper(v[a + 1]);
    assert(u[1] == c1);
    if len == 2 {
        if c1 == 'B' {
            assert(u =~= seq![c0, 'B']);
            return Some(factor);
        }
        return None;
    }
    let c2 = to_upper(v[a + 2]);
    assert(u[2] == c2);
    if c1 == 'I' && c2 == 'B' {
        assert(u =~= seq![c0, 'I', 'B']);
        Some(factor)
    } else {
        None
    }
}

/// Whether every character of `v[a..b]` is an ASCII digit.
fn all_digits_in(v: &Vec<char>, a: usize, b: usize) -> (r: bool)
    requires
        a <= b <= v.len(),
    ensures
        r == all_digits(v@.subrange(a as int, b as int)),
{
    let mut i = a;
    while i < b
        invariant
            a <= i <= b <= v.len(),
            forall|j: int| a <= j < i ==> is_ascii_digit(v@[j]),
        decreases b - i,
    {
        if !is_digit(v[i]) {
            assert(!is_ascii_digit(v@.subrange(a as int, b as int)[i - a]));
            return false;
        }
        i = i + 1;
    }
    assert forall|j: int| 0 <= j < b - a implies is_ascii_digit(
        #[trigger] v@.subrange(a as int, b as int)[j],
    ) by {
        assert(v@.subrange(a as int, b as int)[j] == v@[a + j]);
    }
    true
}

/// Whether some character of `v[a..b]` differs from `'0'`.
fn any_nonzero(v: &Vec<char>, a: usize, b: usize) -> (r: bool)
    requires
        a <= b <= v.len(),
    ensures
        r == !(forall|j: int| 0 <= j < b - a ==> v@.subrange(a as int, b as int)[j] == '0'),
{
    let mut i = a;
    while i < b
        invariant
            a <= i <= b <= v.len(),
            forall|j: int| a <= j < i ==> v@[j] == '0',
        decreases b - i,
    {
        if v[i] != '0' {
            assert(v@.subrange(a as int, b as int)[i - a] != '0');
            return true;
        }
        i = i + 1;
    }
    assert forall|j: int| 0 <= j < b - a implies v@.subrange(a as int, b as int)[j] == '0' by {
        assert(v@.subrange(a as int, b as int)[j] == v@[a + j]);
    }
    false
}

/// Reads the fraction digits `v[a..b]` from the right, times `m`: gives
/// `(f * m) / 10^(b-a)` and whether that division is exact, `f` being their value.
fn frac_quotient(v: &Vec<char>, a: usize, b: usize, m: u32) -> (r: (u64, bool))
    requires
        a <= b <= v.len(),
        all_digits(v@.subrange(a as int, b as int)),
        1 <= m <= 1048576,
    ensures
        r.0 == (digits_value(v@.subrange(a as int, b as int)) * m) as int / (pow10((b - a) as nat) as int),
        r.1 == ((digits_value(v@.subrange(a as int, b as int)) * m) as int % (pow10((b - a) as nat) as int)
            == 0),
        r.0 < m,
{
    let mut q: u64 = 0;
    let mut exact = true;
    let mut j = b;
    assert(v@.subrange(b as int, b as int) =~= Seq::<char>::empty());
    assert(digits_value(v@.subrange(b as int, b as int)) == 0);
    assert(pow10(0) == 1);
    assert(0int / 1int == 0 && 0int % 1int == 0);
    while j > a
        invariant
            a <= j <= b <= v.len(),
            all_digits(v@.subrange(a as int, b as int)),
            1 <= m <= 1048576,
            q == (digits_value(v@.subrange(j as int, b as int)) * m) as int / (pow10((b - j) as nat) as int),
            exact == ((digits_value(v@.subrange(j as int, b as int)) * m) as int % (pow10(
                (b - j) as nat,
            ) as int) == 0),
            q < m,
        decreases j,
    {
        let c = v[j - 1];
        assert(v@.subrange(a as int, b as int)[j - 1 - a] == c);
        let d = (c as u8 - 48u8) as u64;
        let ghost s = v@.subrange(j - 1, b as int);
        let ghost f = digits_value(v@.subrange(j as int, b as int));
        proof {
            assert(s.drop_first() =~= v@.subrange(j as int, b as int));
            lemma_digits_first(s);
            lemma_frac_step(d as int, f as int, (b - j) as nat, m as int, q as int, exact);
            assert(((b - j) + 1) as nat == (b - (j - 1)) as nat);
        }
        assert(d * (m as u64) <= 255 * 1048576) by (nonlinear_arith)
            requires
                d <= 255,
                m <= 1048576,
        ;
        let t = d * (m as u64) + q;
        exact = exact && t % 10 == 0;
        q = t / 10;
        proof {
            let fl = digits_value(s);
            assert(all_digits(s)) by {
                assert forall|i: int| 0 <= i < s.len() implies is_ascii_digit(#[trigger] s[i]) by {
                    assert(s[i] == v@.subrange(a as int, b as int)[j - 1 - a + i]);
                }
            }
            lemma_digits_bound(s);
            lemma_pow10_positive(s.len());
            let p = pow10(s.len()) as int;
            assert(fl * m < p * m) by (nonlinear_arith)
                requires
                    fl < p,
                    m >= 1,
            ;
            lemma_multiply_divide_lt((fl * m) as int, p, m as int);
        }
        j = j - 1;
    }
    (q, exact)
}

/// The first index in `[lo, hi)` holding an ASCII letter, or `hi`.
fn find_letter(v: &Vec<char>, lo: usize, hi: usize) -> (r: usize)
    requires
        lo <= hi <= v.len(),
    ensures
        lo <= r <= hi,
        first_where(v@.subrange(lo as int, hi as int), is_letter(), 0) == r - lo,
{
    let ghost t = v@.subrange(lo as int, hi as int);
    let mut i = lo;
    while i < hi && !is_alphabetic(v[i])
        invariant
            lo <= i <= hi <= v.len(),
            forall|j: int| lo <= j < i ==> !is_ascii_alpha(v@[j]),
        decreases hi - i,
    {
        i = i + 1;
    }
    proof {
        assert forall|j: int| 0 <= j < i - lo implies !is_letter()(#[trigger] t[j]) by {
            assert(t[j] == v@[lo + j]);
        }
        if i < hi {
            assert(t[i - lo] == v@[i as int]);
        }
        lemma_first_where(t, is_letter(), 0, i - lo);
    }
    i
}

/// Cuts the number `v[na..nb]` into sign, digits before the point and digits
/// after it, as [`split_decimal`] does: `(negative, ia, ib, fa, fb)`.
fn split_number(v: &Vec<char>, na: usize, nb: usize) -> (r: Option<(bool, usize, usize, usize, usize)>)
    requires
        na <= nb <= v.len(),
    ensures
        match r {
            Some((negative, ia, ib, fa, fb)) => {
                &&& na <= ia <= ib <= fa <= fb <= nb
                &&& split_decimal(v@.subrange(na as int, nb as int)) == Some(
                    (negative, v@.subrange(ia as int, ib as int), v@.subrange(fa as int, fb as int)),
                )
            },
            None => split_decimal(v@.subrange(na as int, nb as int)) is None,
        },
{
    let ghost num = v@.subrange(na as int, nb as int);
    let negative = na < nb && v[na] == '-';
    let ba = if na < nb && (v[na] == '+' || v[na] == '-') {
        na + 1
    } else {
        na
    };
    let ghost body = v@.subrange(ba as int, nb as int);
    assert(body =~= if num.len() > 0 && (num[0] == '+' || num[0] == '-') {
        num.drop_first()
    } else {
        num
    });
    let dot = find_char_in_range(v, ba, nb, '.');
    let fa = if dot < nb {
        dot + 1
    } else {
        nb
    };
    proof {
        assert forall|j: int| 0 <= j < dot - ba implies !is_point()(#[trigger] body[j]) by {
            assert(body[j] == v@[ba + j]);
        }
        if dot < nb {
            assert(body[dot - ba] == v@[dot as int]);
        }
        lemma_first_where(body, is_point(), 0, dot - ba);
        assert(body.take(dot - ba) =~= v@.subrange(ba as int, dot as int));
        if dot < nb {
            assert(body.skip(dot - ba + 1) =~= v@.subrange(fa as int, nb as int));
        } else {
            assert(v@.subrange(fa as int, nb as int) =~= Seq::<char>::empty());
        }
    }
    if all_digits_in(v, ba, dot) && all_digits_in(v, fa, nb) && (ba < dot || fa < nb) {
        Some((negative, ba, dot, fa, nb))
    } else {
        None
    }
}

/// Reads a size text; see [`size_from_text`] for what is accepted.
pub fn parse_size(s: &str) -> (r: Result<SizeMb, SizeError>)
    ensures
        match r {
            Ok(v) => size_from_text(s@) == Ok::<u32, SizeError>(v.0),
            Err(e) => size_from_text(s@) == Err::<u32, SizeError>(e),
        },
{
    let v = chars_of(s);
    let n = v.len();
    assert(v@.subrange(0, n as int) =~= s@);
    let (lo, hi) = trim_range(&v, 0, n);
    let ghost t = v@.subrange(lo as int, hi as int);
    if lo == hi {
        return Err(SizeError::Empty);
    }
    let split = find_letter(&v, lo, hi);
    assert(t.take(split - lo) =~= v@.subrange(lo as int, split as int));
    assert(t.skip(split - lo) =~= v@.subrange(split as int, hi as int));
    let (na, nb) = trim_range(&v, lo, split);
    let (ua, ub) = trim_range(&v, split, hi);
    let (negative, ia, ib, fa, fb) = match split_number(&v, na, nb) {
        Some(parts) => parts,
        None => {
            return Err(SizeError::NotANumber);
        },
    };
    let ghost whole = v@.subrange(ia as int, ib as int);
    let ghost frac = v@.subrange(fa as int, fb as int);
    let icap = capped_digits(&v, ia, ib);
    let frac_nonzero = any_nonzero(&v, fa, fb);
    proof {
        lemma_digits_concat(whole, frac);
        lemma_digits_zero(frac);
        lemma_digits_bound(frac);
        lemma_pow10_positive(frac.len());
        assert(digits_value(whole + frac) > 0 <==> (digits_value(whole) > 0 || digits_value(frac)
            > 0)) by (nonlinear_arith)
            requires
                digits_value(whole + frac) == digits_value(whole) * pow10(frac.len())
                    + digits_value(frac),
                pow10(frac.len()) >= 1,
        ;
    }
    if negative && (icap > 0 || frac_nonzero) {
        return Err(SizeError::Negative);
    }
    let m = match unit_factor_of(&v, ua, ub) {
        Some(m) => m,
        None => {
            return Err(SizeError::UnknownUnit);
        },
    };
    let (q, exact) = frac_quotient(&v, fa, fb, m);
    proof {
        lemma_size_outcome(
            digits_value(whole) as int,
            digits_value(frac) as int,
            frac.len(),
            m as int,
            q as int,
            exact,
            icap as int,
        );
    }
    assert(icap * (m as u64) <= 0x1_0000_0000 * 1048576) by (nonlinear_arith)
        requires
            icap <= 0x1_0000_0000,
            m <= 1048576,
    ;
    let fl = icap * (m as u64) + q;
    if fl == 0 {
        Err(SizeError::TooSmall)
    } else if fl > 0xffff_ffff || (fl == 0xffff_ffff && !exact) {
        Err(SizeError::TooLarge)
    } else if !exact {
        Err(SizeError::NotWhole)
    } else {
        Ok(SizeMb(fl as u32))
    }
}

// ---------------------------------------------------------------------------
// Laws
// ---------------------------------------------------------------------------

/// A string of digits followed by one upper-case unit letter reads back as its
/// value times the unit's factor.
proof fn lemma_digits_then_unit(x: nat, u: char, factor: nat)
    requires
        u == 'M' || u == 'G' || u == 'T',
        factor == if u == 'M' {
            1nat
        } else if u == 'G' {
            1024nat
        } else {
            1048576nat
        },
        1 <= x * factor <= u32::MAX,
    ensures
        size_from_text(decimal(x).push(u)) == Ok::<u32, SizeError>((x * factor) as u32),
{
    crate::text::lemma_decimal(x);
    let d = decimal(x);
    let s = d.push(u);
    assert(!is_ws(d[0]));
    assert(!is_ws(u));
    // Trimming leaves the text as it is.
    assert(trim_start(s) == s);
    assert(trim_end(s) == s);
    assert(trim(s) == s);
    // The cut is right before the unit letter.
    assert forall|j: int| 0 <= j < d.len() implies !is_letter()(#[trigger] s[j]) by {
        assert(s[j] == d[j]);
        assert(is_ascii_digit(d[j]));
    }
    lemma_first_where(s, is_letter(), 0, d.len() as int);
    assert(s.take(d.len() as int) =~= d);
    assert(s.skip(d.len() as int) =~= seq![u]);
    assert(trim_start(d) == d);
    assert(is_ascii_digit(d[d.len() - 1]));
    assert(trim_end(d) == d);
    let one = seq![u];
    assert(trim_start(one) == one);
    assert(trim_end(one) == one);
    assert(upper_seq(one) =~= one);
    lemma_unit_literals();
    // The number has no sign and no point.
    assert forall|j: int| 0 <= j < d.len() implies !is_point()(#[trigger] d[j]) by {
        assert(is_ascii_digit(d[j]));
    }
    lemma_first_where(d, is_point(), 0, d.len() as int);
    assert(d.take(d.len() as int) =~= d);
    assert(d + Seq::<char>::empty() =~= d);
    assert(split_decimal(d) == Some((false, d, Seq::<char>::empty())));
    assert(pow10(0) == 1);
}

/// White space at the end does not change what `trim_end` leaves.
proof fn lemma_trim_end_spaces(a: Seq<char>, sp: Seq<char>)
    requires
        forall|i: int| 0 <= i < sp.len() ==> is_ws(#[trigger] sp[i]),
    ensures
        trim_end(a + sp) == trim_end(a),
    decreases sp.len(),
{
    if sp.len() == 0 {
        assert(a + sp =~= a);
    } else {
        assert((a + sp).last() == sp[sp.len() - 1]);
        assert((a + sp).drop_last() =~= a + sp.drop_last());
        lemma_trim_end_spaces(a, sp.drop_last());
    }
}

/// The unit spellings the docs list, upper-cased, with the MB each stands for:
/// `M`, `MB`, `MiB` for 1; `G`, `GB`, `GiB` for 1024; `T`, `TB`, `TiB` for 1048576.
pub open spec fn documented_unit(up: Seq<char>, factor: nat) -> bool {
    ||| factor == 1 && (up == seq!['M'] || up == seq!['M', 'B'] || up == seq!['M', 'I', 'B'])
    ||| factor == 1024 && (up == seq!['G'] || up == seq!['G', 'B'] || up == seq!['G', 'I', 'B'])
    ||| factor == 1048576 && (up == seq!['T'] || up == seq!['T', 'B'] || up == seq![
        'T',
        'I',
        'B',
    ])
}

/// A whole number `n` written in decimal, then any number of spaces, then a
/// documented unit spelling in any letter case (`2G`, `512 mib`, `1TB`,
/// `2 TB`, ...) reads as `n` times that unit's size in MB, whenever that size
/// is between 1 and `u32::MAX` MB.
pub proof fn lemma_documented_units(n: nat, sp: Seq<char>, u: Seq<char>, factor: nat)
    requires
        forall|i: int| 0 <= i < sp.len() ==> #[trigger] sp[i] == ' ',
        documented_unit(upper_seq(u), factor),
        1 <= n * factor <= u32::MAX,
    ensures
        size_from_text(decimal(n) + sp + u) == Ok::<u32, SizeError>((n * factor) as u32),
{
    crate::text::lemma_decimal(n);
    lemma_unit_literals();
    let d = decimal(n);
    let s = d + sp + u;
    let up = upper_seq(u);
    assert(u.len() == up.len());
    assert(u.len() >= 1);
    // Every character of the unit is an ASCII letter.
    assert forall|i: int| 0 <= i < u.len() implies is_ascii_alpha(#[trigger] u[i]) by {
        assert(up[i] == ascii_upper(u[i]));
        assert(is_ascii_alpha(up[i]));
    }
    assert(s[0] == d[0]);
    assert(is_ascii_digit(d[0]));
    assert(s.last() == u[u.len() - 1]);
    assert(is_ascii_alpha(u[u.len() - 1]));
    assert(trim_start(s) == s);
    assert(trim_end(s) == s);
    assert(trim(s) == s);
    // The cut is right before the unit.
    let k: int = (d.len() + sp.len()) as int;
    assert forall|j: int| 0 <= j < k implies !is_letter()(#[trigger] s[j]) by {
        if j < d.len() {
            assert(s[j] == d[j]);
            assert(is_ascii_digit(d[j]));
        } else {
            assert(s[j] == sp[j - d.len()]);
        }
    }
    assert(s[k] == u[0]);
    lemma_first_where(s, is_letter(), 0, k as int);
    assert(s.take(k as int) =~= d + sp);
    assert(s.skip(k as int) =~= u);
    // The number is the digits alone.
    assert forall|i: int| 0 <= i < sp.len() implies is_ws(#[trigger] sp[i]) by {
        assert(sp[i] == ' ');
    }
    lemma_trim_end_spaces(d, sp);
    assert(is_ascii_digit(d[d.len() - 1]));
    assert(trim_end(d) == d);
    assert((d + sp)[0] == d[0]);
    if sp.len() == 0 {
        assert(d + sp =~= d);
    }
    assert(trim_start(d + sp) == d + sp);
    assert(trim(d + sp) == d);
    assert(trim_start(u) == u);
    assert(trim_end(u) == u);
    assert(trim(u) == u);
    assert(unit_factor(up) == Some(factor));
    // The number has no sign and no point.
    assert forall|j: int| 0 <= j < d.len() implies !is_point()(#[trigger] d[j]) by {
        assert(is_ascii_digit(d[j]));
    }
    lemma_first_where(d, is_point(), 0, d.len() as int);
    assert(d.take(d.len() as int) =~= d);
    assert(d + Seq::<char>::empty() =~= d);
    assert(split_decimal(d) == Some((false, d, Seq::<char>::empty())));
    assert(pow10(0) == 1);
}

/// Showing a size and reading the text back gives the same size (sizes are at
/// least 1 MB).
pub proof fn lemma_size_text_round_trip(mb: u32)
    requires
        mb >= 1,
    ensures
        size_from_text(size_text(mb as nat)) == Ok::<u32, SizeError>(mb),
{
    if mb >= 1048576 && mb % 1048576 == 0 {
        lemma_digits_then_unit((mb / 1048576) as nat, 'T', 1048576);
    } else if mb >= 1024 && mb % 1024 == 0 {
        lemma_digits_then_unit((mb / 1024) as nat, 'G', 1024);
    } else {
        lemma_digits_then_unit(mb as nat, 'M', 1);
    }
}

/// Reading a size does not depend on the letter case of the text: the unit may
/// be written in upper, lower or mixed case.
pub proof fn lemma_size_ignores_case(s: Seq<char>)
    ensures
        size_from_text(upper_seq(s)) == size_from_text(s),
{
    let t = trim(s);
    crate::text::lemma_upper_trim(s);
    assert(trim(upper_seq(s)) == upper_seq(t));
    let k = first_where(t, is_letter(), 0);
    crate::text::lemma_first_letter_upper(t, 0);
    crate::text::lemma_first_where_bounds(t, is_letter(), 0);
    assert(upper_seq(t).take(k) =~= upper_seq(t.take(k)));
    assert(upper_seq(t).skip(k) =~= upper_seq(t.skip(k)));
    assert forall|j: int| 0 <= j < k implies #[trigger] upper_seq(t.take(k))[j] == t.take(k)[j] by {
        crate::text::lemma_first_where_before(t, is_letter(), 0, j);
        crate::text::lemma_ascii_upper_char(t[j]);
    }
    assert(upper_seq(t.take(k)) =~= t.take(k));
    crate::text::lemma_upper_trim(t.skip(k));
    crate::text::lemma_upper_idempotent(trim(t.skip(k)));
}

/// White space around a size text does not change what it reads as.
pub proof fn lemma_size_ignores_surrounding_space(s: Seq<char>)
    ensures
        size_from_text(trim(s)) == size_from_text(s),
{
    crate::text::lemma_trim_idempotent(s);
}

impl SizeMb {
    /// The size in MB.
    pub fn mb(self) -> (r: u32)
        ensures
            r == self.0,
    {
        self.0
    }

    /// The compact text of the size: `T`, `G` or `M` after the largest of these
    /// units that divides it evenly (what `Display` prints).
    pub fn to_string(&self) -> (r: String)
        ensures
            r@ == size_text(self.0 as nat),
    {
        let mb = self.0;
        let mut s = String::new();
        if mb >= MB_PER_TB && mb % MB_PER_TB == 0 {
            push_decimal(&mut s, mb / MB_PER_TB);
            push_char(&mut s, 'T');
        } else if mb >= MB_PER_GB && mb % MB_PER_GB == 0 {
            push_decimal(&mut s, mb / MB_PER_GB);
            push_char(&mut s, 'G');
        } else {
            push_decimal(&mut s, mb);
            push_char(&mut s, 'M');
        }
        assert(s@ =~= size_text(mb as nat));
        s
    }
}

impl core::str::FromStr for SizeMb {
    type Err = SizeError;

    /// Reads a size as [`parse_size`] does.
    fn from_str(s: &str) -> (r: Result<SizeMb, SizeError>)
        ensures
            match r {
                Ok(v) => size_from_text(s@) == Ok::<u32, SizeError>(v.0),
                Err(e) => size_from_text(s@) == Err::<u32, SizeError>(e),
            },
    {
        parse_size(s)
    }
}

} // verus!
