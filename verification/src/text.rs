//! Character-level building blocks shared by the parsers and the command
//! builders: character classes, trimming, searching, line splitting and
//! decimal rendering, each with the spec function it is proved against.

use vstd::prelude::*;
use vstd::string::*;

verus! {

// ---------------------------------------------------------------------------
// Character classes
// ---------------------------------------------------------------------------

/// Unicode `White_Space`, the set that `char::is_whitespace` tests.
pub open spec fn is_ws(c: char) -> bool {
    ||| ('\u{9}' <= c && c <= '\u{d}')
    ||| c == ' '
    ||| c == '\u{85}'
    ||| c == '\u{a0}'
    ||| c == '\u{1680}'
    ||| ('\u{2000}' <= c && c <= '\u{200a}')
    ||| c == '\u{2028}'
    ||| c == '\u{2029}'
    ||| c == '\u{202f}'
    ||| c == '\u{205f}'
    ||| c == '\u{3000}'
}

pub open spec fn is_ascii_upper(c: char) -> bool {
    'A' <= c && c <= 'Z'
}

pub open spec fn is_ascii_lower(c: char) -> bool {
    'a' <= c && c <= 'z'
}

pub open spec fn is_ascii_alpha(c: char) -> bool {
    is_ascii_upper(c) || is_ascii_lower(c)
}

pub open spec fn is_ascii_digit(c: char) -> bool {
    '0' <= c && c <= '9'
}

/// `char::to_ascii_uppercase`.
pub open spec fn ascii_upper(c: char) -> char {
    if is_ascii_lower(c) {
        ((c as u32) - 32) as char
    } else {
        c
    }
}

/// `char::to_ascii_lowercase`.
pub open spec fn ascii_lower(c: char) -> char {
    if is_ascii_upper(c) {
        ((c as u32) + 32) as char
    } else {
        c
    }
}

/// `str::to_ascii_lowercase`, character by character.
pub open spec fn lower_seq(s: Seq<char>) -> Seq<char> {
    s.map_values(|c: char| ascii_lower(c))
}

/// Every character is ASCII.
pub open spec fn is_ascii_text(s: Seq<char>) -> bool {
    forall|i: int| 0 <= i < s.len() ==> #[trigger] s[i] <= '\u{7f}'
}

/// `str::to_ascii_uppercase`, character by character.
pub open spec fn upper_seq(s: Seq<char>) -> Seq<char> {
    s.map_values(|c: char| ascii_upper(c))
}

/// The value of a decimal digit character.
pub open spec fn digit_value(c: char) -> nat {
    ((c as u32) - ('0' as u32)) as nat
}

/// The character of a decimal digit `0 <= d < 10`.
pub open spec fn digit_char(d: nat) -> char {
    (d + ('0' as u32)) as char
}

pub fn is_whitespace(c: char) -> (r: bool)
    ensures
        r == is_ws(c),
{
    ('\u{9}' <= c && c <= '\u{d}') || c == ' ' || c == '\u{85}' || c == '\u{a0}' || c
        == '\u{1680}' || ('\u{2000}' <= c && c <= '\u{200a}') || c == '\u{2028}' || c
        == '\u{2029}' || c == '\u{202f}' || c == '\u{205f}' || c == '\u{3000}'
}

pub fn is_alphabetic(c: char) -> (r: bool)
    ensures
        r == is_ascii_alpha(c),
{
    ('A' <= c && c <= 'Z') || ('a' <= c && c <= 'z')
}

pub fn is_digit(c: char) -> (r: bool)
    ensures
        r == is_ascii_digit(c),
{
    '0' <= c && c <= '9'
}

pub fn to_upper(c: char) -> (r: char)
    ensures
        r == ascii_upper(c),
{
    if 'a' <= c && c <= 'z' {
        ((c as u8) - 32) as char
    } else {
        c
    }
}

pub fn to_lower(c: char) -> (r: char)
    ensures
        r == ascii_lower(c),
{
    if 'A' <= c && c <= 'Z' {
        ((c as u8) + 32) as char
    } else {
        c
    }
}

// ---------------------------------------------------------------------------
// Trimming
// ---------------------------------------------------------------------------

/// `str::trim_start`: drops leading white space.
pub open spec fn trim_start(s: Seq<char>) -> Seq<char>
    decreases s.len(),
{
    if s.len() > 0 && is_ws(s[0]) {
        trim_start(s.drop_first())
    } else {
        s
    }
}

/// `str::trim_end`: drops trailing white space.
pub open spec fn trim_end(s: Seq<char>) -> Seq<char>
    decreases s.len(),
{
    if s.len() > 0 && is_ws(s.last()) {
        trim_end(s.drop_last())
    } else {
        s
    }
}

/// `str::trim`.
pub open spec fn trim(s: Seq<char>) -> Seq<char> {
    trim_end(trim_start(s))
}

/// What `trim_start` leaves does not begin with white space.
pub proof fn lemma_trim_start_head(s: Seq<char>)
    ensures
        trim_start(s).len() == 0 || !is_ws(trim_start(s)[0]),
        trim_start(trim_start(s)) == trim_start(s),
    decreases s.len(),
{
    if s.len() > 0 && is_ws(s[0]) {
        lemma_trim_start_head(s.drop_first());
    }
}

/// What `trim_end` leaves does not end with white space, and keeps a first
/// character that is not white space.
pub proof fn lemma_trim_end_tail(s: Seq<char>)
    ensures
        trim_end(s).len() == 0 || !is_ws(trim_end(s).last()),
        trim_end(trim_end(s)) == trim_end(s),
        (s.len() == 0 || !is_ws(s[0])) ==> trim_start(trim_end(s)) == trim_end(s),
    decreases s.len(),
{
    if s.len() > 0 && is_ws(s.last()) {
        lemma_trim_end_tail(s.drop_last());
        if s.len() >= 2 {
            assert(s.drop_last()[0] == s[0]);
        }
    }
}

/// Trimming twice is trimming once.
pub proof fn lemma_trim_idempotent(s: Seq<char>)
    ensures
        trim(trim(s)) == trim(s),
{
    lemma_trim_start_head(s);
    let x = trim_start(s);
    lemma_trim_end_tail(x);
    lemma_trim_end_tail(trim_start(trim_end(x)));
}

/// Upper-casing keeps white space, letters and other characters in their classes.
pub proof fn lemma_ascii_upper_char(c: char)
    ensures
        is_ws(ascii_upper(c)) == is_ws(c),
        is_ascii_alpha(ascii_upper(c)) == is_ascii_alpha(c),
        !is_ascii_alpha(c) ==> ascii_upper(c) == c,
        ascii_upper(ascii_upper(c)) == ascii_upper(c),
{
}

pub proof fn lemma_upper_trim(s: Seq<char>)
    ensures
        trim_start(upper_seq(s)) == upper_seq(trim_start(s)),
        trim_end(upper_seq(s)) == upper_seq(trim_end(s)),
        trim(upper_seq(s)) == upper_seq(trim(s)),
    decreases s.len(),
{
    let u = upper_seq(s);
    if s.len() > 0 {
        lemma_ascii_upper_char(s[0]);
        lemma_ascii_upper_char(s.last());
        assert(u[0] == ascii_upper(s[0]));
        assert(u.last() == ascii_upper(s.last()));
        assert(u.drop_first() =~= upper_seq(s.drop_first()));
        assert(u.drop_last() =~= upper_seq(s.drop_last()));
        lemma_upper_trim(s.drop_first());
        lemma_upper_trim(s.drop_last());
    } else {
        assert(u =~= s);
    }
    lemma_upper_trim_end_only(trim_start(s));
}

proof fn lemma_upper_trim_end_only(s: Seq<char>)
    ensures
        trim_end(upper_seq(s)) == upper_seq(trim_end(s)),
    decreases s.len(),
{
    let u = upper_seq(s);
    if s.len() > 0 {
        lemma_ascii_upper_char(s.last());
        assert(u.last() == ascii_upper(s.last()));
        assert(u.drop_last() =~= upper_seq(s.drop_last()));
        lemma_upper_trim_end_only(s.drop_last());
    }
}

pub proof fn lemma_upper_idempotent(s: Seq<char>)
    ensures
        upper_seq(upper_seq(s)) == upper_seq(s),
{
    assert forall|i: int| 0 <= i < s.len() implies #[trigger] upper_seq(upper_seq(s))[i]
        == upper_seq(s)[i] by {
        lemma_ascii_upper_char(s[i]);
    }
    assert(upper_seq(upper_seq(s)) =~= upper_seq(s));
}

/// The bounds, inside `[lo, hi)`, of the leading-white-space-free part of `v[lo..hi]`.
pub fn trim_start_range(v: &Vec<char>, lo: usize, hi: usize) -> (a: usize)
    requires
        lo <= hi <= v.len(),
    ensures
        lo <= a <= hi,
        v@.subrange(a as int, hi as int) == trim_start(v@.subrange(lo as int, hi as int)),
{
    let mut a = lo;
    while a < hi && is_whitespace(v[a])
        invariant
            lo <= a <= hi <= v.len(),
            trim_start(v@.subrange(lo as int, hi as int)) == trim_start(
                v@.subrange(a as int, hi as int),
            ),
        decreases hi - a,
    {
        assert(v@.subrange(a as int, hi as int).drop_first() =~= v@.subrange(
            a + 1,
            hi as int,
        ));
        a = a + 1;
    }
    a
}

/// The bounds, inside `[lo, hi)`, of `trim(v[lo..hi])`.
pub fn trim_range(v: &Vec<char>, lo: usize, hi: usize) -> (r: (usize, usize))
    requires
        lo <= hi <= v.len(),
    ensures
        lo <= r.0 <= r.1 <= hi,
        v@.subrange(r.0 as int, r.1 as int) == trim(v@.subrange(lo as int, hi as int)),
{
    let a = trim_start_range(v, lo, hi);
    let mut b = hi;
    while b > a && is_whitespace(v[b - 1])
        invariant
            lo <= a <= b <= hi <= v.len(),
            trim_end(v@.subrange(a as int, hi as int)) == trim_end(
                v@.subrange(a as int, b as int),
            ),
        decreases b - a,
    {
        assert(v@.subrange(a as int, b as int).drop_last() =~= v@.subrange(
            a as int,
            b - 1,
        ));
        b = b - 1;
    }
    (a, b)
}

// ---------------------------------------------------------------------------
// Prefixes, suffixes and searching
// ---------------------------------------------------------------------------

pub open spec fn starts_with(s: Seq<char>, p: Seq<char>) -> bool {
    p.len() <= s.len() && s.take(p.len() as int) == p
}

pub open spec fn ends_with(s: Seq<char>, p: Seq<char>) -> bool {
    p.len() <= s.len() && s.skip(s.len() - p.len()) == p
}

/// `p` occurs in `s` starting at index `i`.
pub open spec fn occurs_at(s: Seq<char>, p: Seq<char>, i: int) -> bool {
    0 <= i && i + p.len() <= s.len() && s.subrange(i, i + p.len()) == p
}

/// The first index `>= i` at which `p` occurs in `s` (`str::find` for `i == 0`).
pub open spec fn find_from(s: Seq<char>, p: Seq<char>, i: int) -> Option<int>
    decreases s.len() + 1 - i,
{
    if i < 0 || i + p.len() > s.len() {
        None
    } else if occurs_at(s, p, i) {
        Some(i)
    } else {
        find_from(s, p, i + 1)
    }
}

/// `str::contains` for a string pattern.
pub open spec fn contains(s: Seq<char>, p: Seq<char>) -> bool {
    find_from(s, p, 0) is Some
}

/// The first index `>= i` holding a character for which `pred` holds, or `s.len()`.
pub open spec fn first_where(s: Seq<char>, pred: spec_fn(char) -> bool, i: int) -> int
    decreases s.len() - i,
{
    if i < 0 || i >= s.len() {
        s.len() as int
    } else if pred(s[i]) {
        i
    } else {
        first_where(s, pred, i + 1)
    }
}

/// The test for `'\n'`.
pub open spec fn is_newline() -> spec_fn(char) -> bool {
    |c: char| c == '\n'
}

/// The test for white space.
pub open spec fn is_space() -> spec_fn(char) -> bool {
    |c: char| is_ws(c)
}

/// The test for ASCII letters.
pub open spec fn is_letter() -> spec_fn(char) -> bool {
    |c: char| is_ascii_alpha(c)
}

/// The test for `'.'`.
pub open spec fn is_point() -> spec_fn(char) -> bool {
    |c: char| c == '.'
}

/// `first_where` is the index of the first match at or after `i`.
pub proof fn lemma_first_where(s: Seq<char>, pred: spec_fn(char) -> bool, i: int, k: int)
    requires
        0 <= i <= k <= s.len(),
        forall|j: int| i <= j < k ==> !pred(#[trigger] s[j]),
        k == s.len() || pred(s[k]),
    ensures
        first_where(s, pred, i) == k,
    decreases k - i,
{
    if i < k {
        lemma_first_where(s, pred, i + 1, k);
    }
}

pub proof fn lemma_first_where_bounds(s: Seq<char>, pred: spec_fn(char) -> bool, i: int)
    requires
        0 <= i,
    ensures
        i <= first_where(s, pred, i) <= s.len() || (i > s.len() && first_where(s, pred, i)
            == s.len()),
    decreases s.len() - i,
{
    if i < s.len() && !pred(s[i]) {
        lemma_first_where_bounds(s, pred, i + 1);
    }
}

/// Nothing before `first_where` passes the test.
pub proof fn lemma_first_where_before(s: Seq<char>, pred: spec_fn(char) -> bool, i: int, j: int)
    requires
        0 <= i <= j < first_where(s, pred, i),
    ensures
        !pred(s[j]),
    decreases s.len() - i,
{
    if i < s.len() && !pred(s[i]) && i < j {
        lemma_first_where_before(s, pred, i + 1, j);
    }
}

/// Upper-casing does not move the first letter.
pub proof fn lemma_first_letter_upper(t: Seq<char>, i: int)
    requires
        0 <= i,
    ensures
        first_where(upper_seq(t), is_letter(), i) == first_where(t, is_letter(), i),
    decreases t.len() - i,
{
    if i < t.len() {
        lemma_ascii_upper_char(t[i]);
        assert(upper_seq(t)[i] == ascii_upper(t[i]));
        lemma_first_letter_upper(t, i + 1);
    }
}

/// `find_from` gives the first occurrence at or after `i`.
pub proof fn lemma_find_from(s: Seq<char>, p: Seq<char>, i: int, k: int)
    requires
        0 <= i <= k,
        forall|j: int| i <= j < k ==> !#[trigger] occurs_at(s, p, j),
        occurs_at(s, p, k),
    ensures
        find_from(s, p, i) == Some(k),
    decreases k - i,
{
    if i < k {
        lemma_find_from(s, p, i + 1, k);
    }
}

/// What `find_from` finds is an occurrence.
pub proof fn lemma_find_from_found(s: Seq<char>, p: Seq<char>, i: int)
    ensures
        find_from(s, p, i) matches Some(k) ==> i <= k && occurs_at(s, p, k),
    decreases s.len() + 1 - i,
{
    if !(i < 0 || i + p.len() > s.len()) && !occurs_at(s, p, i) {
        lemma_find_from_found(s, p, i + 1);
    }
}

/// `find_from` finds nothing when no occurrence starts at or after `i`.
pub proof fn lemma_find_from_none(s: Seq<char>, p: Seq<char>, i: int)
    requires
        0 <= i,
        forall|j: int| i <= j ==> !#[trigger] occurs_at(s, p, j),
    ensures
        find_from(s, p, i) is None,
    decreases s.len() + 1 - i,
{
    if i + p.len() <= s.len() {
        lemma_find_from_none(s, p, i + 1);
    }
}

/// Whether `p` occurs in `v[lo..hi]` at offset `i` (relative to `lo`).
fn occurs_in_range(v: &Vec<char>, lo: usize, hi: usize, p: &Vec<char>, i: usize) -> (r: bool)
    requires
        lo <= hi <= v.len(),
        i + p.len() <= hi - lo,
    ensures
        r == occurs_at(v@.subrange(lo as int, hi as int), p@, i as int),
{
    let ghost s = v@.subrange(lo as int, hi as int);
    let mut j: usize = 0;
    while j < p.len()
        invariant
            lo <= hi <= v.len(),
            i + p.len() <= hi - lo,
            s == v@.subrange(lo as int, hi as int),
            j <= p.len(),
            forall|t: int| 0 <= t < j ==> s[i + t] == p@[t],
        decreases p.len() - j,
    {
        if v[lo + i + j] != p[j] {
            assert(s.subrange(i as int, i + p.len())[j as int] != p@[j as int]);
            return false;
        }
        j = j + 1;
    }
    assert(s.subrange(i as int, i + p.len()) =~= p@);
    true
}

/// `str::find` on `v[lo..hi]`: the offset (relative to `lo`) of the first occurrence of `p`.
pub fn find_in_range(v: &Vec<char>, lo: usize, hi: usize, p: &Vec<char>) -> (r: Option<usize>)
    requires
        lo <= hi <= v.len(),
    ensures
        match r {
            Some(i) => find_from(v@.subrange(lo as int, hi as int), p@, 0) == Some(i as int),
            None => find_from(v@.subrange(lo as int, hi as int), p@, 0) is None,
        },
{
    let ghost s = v@.subrange(lo as int, hi as int);
    if p.len() > hi - lo {
        proof {
            lemma_find_from_none(s, p@, 0);
        }
        return None;
    }
    let last = hi - lo - p.len();
    let mut i: usize = 0;
    loop
        invariant
            lo <= hi <= v.len(),
            s == v@.subrange(lo as int, hi as int),
            p.len() <= hi - lo,
            last == hi - lo - p.len(),
            i <= last,
            forall|j: int| 0 <= j < i ==> !#[trigger] occurs_at(s, p@, j),
        ensures
            forall|j: int| 0 <= j <= last ==> !#[trigger] occurs_at(s, p@, j),
        decreases last - i,
    {
        if occurs_in_range(v, lo, hi, p, i) {
            proof {
                lemma_find_from(s, p@, 0, i as int);
            }
            return Some(i);
        }
        if i == last {
            break;
        }
        i = i + 1;
    }
    proof {
        assert forall|j: int| 0 <= j implies !#[trigger] occurs_at(s, p@, j) by {
            if j > last {
                assert(j + p.len() > s.len());
            }
        }
        lemma_find_from_none(s, p@, 0);
    }
    None
}

/// The first index in `[from, hi)` holding `c`, or `hi`.
pub fn find_char_in_range(v: &Vec<char>, from: usize, hi: usize, c: char) -> (r: usize)
    requires
        from <= hi <= v.len(),
    ensures
        from <= r <= hi,
        forall|j: int| from <= j < r ==> v@[j] != c,
        r < hi ==> v@[r as int] == c,
{
    let mut i = from;
    while i < hi && v[i] != c
        invariant
            from <= i <= hi <= v.len(),
            forall|j: int| from <= j < i ==> v@[j] != c,
        decreases hi - i,
    {
        i = i + 1;
    }
    i
}

// ---------------------------------------------------------------------------
// Lines
// ---------------------------------------------------------------------------

/// The pieces of `s` between `'\n'` characters. Every use in this crate trims a
/// line or takes its first white-space separated word, so this agrees there with
/// `str::lines` (which also drops a `'\r'` before `'\n'` and a final empty piece).
pub open spec fn split_lines(s: Seq<char>) -> Seq<Seq<char>>
    decreases s.len(),
{
    let k = first_where(s, is_newline(), 0);
    proof {
        lemma_first_where_bounds(s, is_newline(), 0);
    }
    if k >= s.len() {
        seq![s]
    } else {
        seq![s.take(k)] + split_lines(s.skip(k + 1))
    }
}

/// The end of the line that starts at `p`, and the line itself.
pub proof fn lemma_split_lines_step(v: Seq<char>, p: int, e: int)
    requires
        0 <= p <= e <= v.len(),
        forall|j: int| p <= j < e ==> v[j] != '\n',
        e == v.len() || v[e] == '\n',
    ensures
        e == v.len() ==> split_lines(v.skip(p)) == seq![v.subrange(p, e)],
        e < v.len() ==> split_lines(v.skip(p)) == seq![v.subrange(p, e)] + split_lines(
            v.skip(e + 1),
        ),
{
    let s = v.skip(p);
    let pred = is_newline();
    assert forall|j: int| 0 <= j < e - p implies !pred(#[trigger] s[j]) by {
        assert(s[j] == v[p + j]);
    }
    lemma_first_where(s, pred, 0, e - p);
    if e < v.len() {
        assert(s.take(e - p) =~= v.subrange(p, e));
        assert(s.skip(e - p + 1) =~= v.skip(e + 1));
    } else {
        assert(s =~= v.subrange(p, e));
    }
}

/// There is always at least one line.
pub proof fn lemma_split_lines_nonempty(s: Seq<char>)
    ensures
        split_lines(s).len() >= 1,
{
    lemma_first_where_bounds(s, is_newline(), 0);
}

/// The first white-space separated word of `s` (`split_whitespace().next()`).
pub open spec fn first_word(s: Seq<char>) -> Option<Seq<char>> {
    let t = trim_start(s);
    if t.len() == 0 {
        None
    } else {
        Some(t.take(first_where(t, is_space(), 0)))
    }
}

/// The bounds of the first white-space separated word of `v[lo..hi]`, if any.
pub fn first_word_range(v: &Vec<char>, lo: usize, hi: usize) -> (r: Option<(usize, usize)>)
    requires
        lo <= hi <= v.len(),
    ensures
        match r {
            Some((a, b)) => lo <= a <= b <= hi && first_word(v@.subrange(lo as int, hi as int))
                == Some(v@.subrange(a as int, b as int)),
            None => first_word(v@.subrange(lo as int, hi as int)) is None,
        },
{
    let a = trim_start_range(v, lo, hi);
    if a == hi {
        return None;
    }
    let mut b = a;
    while b < hi && !is_whitespace(v[b])
        invariant
            a <= b <= hi <= v.len(),
            forall|j: int| a <= j < b ==> !is_ws(v@[j]),
        decreases hi - b,
    {
        b = b + 1;
    }
    proof {
        let t = v@.subrange(a as int, hi as int);
        let pred = is_space();
        assert forall|j: int| 0 <= j < b - a implies !pred(#[trigger] t[j]) by {
            assert(t[j] == v@[a + j]);
        }
        lemma_first_where(t, pred, 0, b - a);
        assert(t.take(b - a) =~= v@.subrange(a as int, b as int));
    }
    Some((a, b))
}

// ---------------------------------------------------------------------------
// Decimal numbers
// ---------------------------------------------------------------------------

/// `u32::to_string` / `{}` formatting of a natural number.
pub open spec fn decimal(n: nat) -> Seq<char>
    decreases n,
{
    if n < 10 {
        seq![digit_char(n)]
    } else {
        decimal(n / 10).push(digit_char(n % 10))
    }
}

/// `10^k`.
pub open spec fn pow10(k: nat) -> nat
    decreases k,
{
    if k == 0 {
        1
    } else {
        10 * pow10((k - 1) as nat)
    }
}

pub proof fn lemma_pow10_positive(k: nat)
    ensures
        pow10(k) >= 1,
    decreases k,
{
    if k > 0 {
        lemma_pow10_positive((k - 1) as nat);
    }
}

/// A decimal rendering is a non-empty string of digits whose value is the number.
pub proof fn lemma_decimal(n: nat)
    ensures
        decimal(n).len() >= 1,
        all_digits(decimal(n)),
        digits_value(decimal(n)) == n,
    decreases n,
{
    if n < 10 {
        let s = decimal(n);
        assert(s.drop_last() =~= Seq::<char>::empty());
        assert(s[0] == digit_char(n));
        assert(digit_value(digit_char(n)) == n);
        assert(digits_value(s) == digits_value(s.drop_last()) * 10 + digit_value(s.last()));
    } else {
        lemma_decimal(n / 10);
        let s = decimal(n);
        let p = decimal(n / 10);
        assert(s.drop_last() =~= p);
        assert(s.last() == digit_char(n % 10));
        assert(digit_value(digit_char(n % 10)) == n % 10);
        assert(digits_value(s) == digits_value(p) * 10 + n % 10);
        assert((n / 10) * 10 + n % 10 == n);
        assert forall|i: int| 0 <= i < s.len() implies is_ascii_digit(#[trigger] s[i]) by {
            if i < s.len() - 1 {
                assert(s[i] == p[i]);
            }
        }
    }
}

/// The value of a string of decimal digits (0 for the empty string).
pub open spec fn digits_value(s: Seq<char>) -> nat
    decreases s.len(),
{
    if s.len() == 0 {
        0
    } else {
        digits_value(s.drop_last()) * 10 + digit_value(s.last())
    }
}

pub open spec fn all_digits(s: Seq<char>) -> bool {
    forall|i: int| 0 <= i < s.len() ==> is_ascii_digit(#[trigger] s[i])
}

/// `u32::from_str`: an optional `+`, then one or more ASCII digits, within range.
pub open spec fn parse_u32(s: Seq<char>) -> Option<u32> {
    let body = if s.len() > 0 && s[0] == '+' {
        s.drop_first()
    } else {
        s
    };
    if body.len() > 0 && all_digits(body) && digits_value(body) <= u32::MAX {
        Some(digits_value(body) as u32)
    } else {
        None
    }
}

/// The value of the digits `v[a..b]`, or `2^32` if it is at least that.
pub fn capped_digits(v: &Vec<char>, a: usize, b: usize) -> (r: u64)
    requires
        a <= b <= v.len(),
        all_digits(v@.subrange(a as int, b as int)),
    ensures
        r == if digits_value(v@.subrange(a as int, b as int)) < 0x1_0000_0000 {
            digits_value(v@.subrange(a as int, b as int))
        } else {
            0x1_0000_0000
        },
{
    let cap: u64 = 0x1_0000_0000;
    let mut acc: u64 = 0;
    let mut i = a;
    assert(v@.subrange(a as int, a as int) =~= Seq::<char>::empty());
    while i < b
        invariant
            a <= i <= b <= v.len(),
            all_digits(v@.subrange(a as int, b as int)),
            cap == 0x1_0000_0000,
            acc == if digits_value(v@.subrange(a as int, i as int)) < cap {
                digits_value(v@.subrange(a as int, i as int))
            } else {
                cap as nat
            },
        decreases b - i,
    {
        let c = v[i];
        assert(v@.subrange(a as int, b as int)[i - a] == c);
        let d = (c as u8 - 48u8) as u64;
        let ghost prev = v@.subrange(a as int, i as int);
        assert(v@.subrange(a as int, i + 1).drop_last() =~= prev);
        assert(digits_value(v@.subrange(a as int, i + 1)) == digits_value(prev) * 10 + d);
        let next = acc * 10 + d;
        acc = if next < cap {
            next
        } else {
            cap
        };
        i = i + 1;
    }
    acc
}

/// `u32::from_str` on `v[a..b]`; see [`parse_u32`].
pub fn parse_u32_range(v: &Vec<char>, a: usize, b: usize) -> (r: Option<u32>)
    requires
        a <= b <= v.len(),
    ensures
        r == parse_u32(v@.subrange(a as int, b as int)),
{
    let ghost s = v@.subrange(a as int, b as int);
    let da = if a < b && v[a] == '+' {
        a + 1
    } else {
        a
    };
    assert(v@.subrange(da as int, b as int) =~= if s.len() > 0 && s[0] == '+' {
        s.drop_first()
    } else {
        s
    });
    if da == b {
        return None;
    }
    let mut i = da;
    while i < b
        invariant
            da <= i <= b <= v.len(),
            forall|j: int| da <= j < i ==> is_ascii_digit(v@[j]),
            s == v@.subrange(a as int, b as int),
            v@.subrange(da as int, b as int) == if s.len() > 0 && s[0] == '+' {
                s.drop_first()
            } else {
                s
            },
        decreases b - i,
    {
        if !is_digit(v[i]) {
            assert(!is_ascii_digit(v@.subrange(da as int, b as int)[i - da]));
            assert(!all_digits(v@.subrange(da as int, b as int)));
            return None;
        }
        i = i + 1;
    }
    assert forall|j: int| 0 <= j < b - da implies is_ascii_digit(
        #[trigger] v@.subrange(da as int, b as int)[j],
    ) by {
        assert(v@.subrange(da as int, b as int)[j] == v@[da + j]);
    }
    let value = capped_digits(v, da, b);
    if value > 0xffff_ffff {
        None
    } else {
        Some(value as u32)
    }
}

/// Appends one character to a `String` (`String::push`).
#[verifier::external_body]
pub(crate) fn push_char(s: &mut String, c: char)
    ensures
        final(s)@ == old(s)@.push(c),
{
    s.push(c);
}

/// Appends the decimal form of `n`.
pub fn push_decimal(s: &mut String, n: u32)
    ensures
        final(s)@ == old(s)@ + decimal(n as nat),
    decreases n,
{
    if n >= 10 {
        push_decimal(s, n / 10);
    }
    let d: u8 = (n % 10) as u8;
    push_char(s, (d + 48) as char);
    proof {
        assert(final(s)@ =~= old(s)@ + decimal(n as nat));
    }
}

/// `n.to_string()`.
pub fn decimal_string(n: u32) -> (r: String)
    ensures
        r@ == decimal(n as nat),
{
    let mut s = String::new();
    push_decimal(&mut s, n);
    assert(s@ =~= decimal(n as nat));
    s
}

/// The `String` holding `v[lo..hi]`.
pub fn string_of_range(v: &Vec<char>, lo: usize, hi: usize) -> (r: String)
    requires
        lo <= hi <= v.len(),
    ensures
        r@ == v@.subrange(lo as int, hi as int),
{
    let mut s = String::new();
    let mut i = lo;
    while i < hi
        invariant
            lo <= i <= hi <= v.len(),
            s@ == v@.subrange(lo as int, i as int),
        decreases hi - i,
    {
        push_char(&mut s, v[i]);
        assert(s@ =~= v@.subrange(lo as int, i + 1));
        i = i + 1;
    }
    s
}

/// The characters of a string slice, in order.
pub fn chars_of(s: &str) -> (v: Vec<char>)
    ensures
        v@ == s@,
{
    let mut v: Vec<char> = Vec::new();
    for c in it: s.chars()
        invariant
            v@ == it.seq().take(it.index() as int),
    {
        v.push(c);
    }
    v
}

/// Whether two texts are equal.
pub fn same_text(a: &str, b: &str) -> (r: bool)
    ensures
        r == (a@ == b@),
{
    let x = chars_of(a);
    let y = chars_of(b);
    if x.len() != y.len() {
        return false;
    }
    let mut i: usize = 0;
    while i < x.len()
        invariant
            x.len() == y.len(),
            x@ == a@,
            y@ == b@,
            i <= x.len(),
            forall|j: int| 0 <= j < i ==> x@[j] == y@[j],
        decreases x.len() - i,
    {
        if x[i] != y[i] {
            assert(a@[i as int] != b@[i as int]);
            return false;
        }
        i = i + 1;
    }
    assert(x@ =~= y@);
    true
}

/// A new `String` holding `s`.
pub fn owned(s: &str) -> (r: String)
    ensures
        r@ == s@,
{
    String::from_str(s)
}

/// `a + b` for strings.
pub fn concat2(a: &str, b: &str) -> (r: String)
    ensures
        r@ == a@ + b@,
{
    let mut s = String::from_str(a);
    s.append(b);
    s
}

} // verus!
