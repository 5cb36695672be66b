//! The decimal number syntax accepted for numeric action arguments, and the
//! range of such a number where an action needs it.
//!
//! A numeric argument is any text that `str::parse::<f64>` accepts: an optional
//! sign, then `inf`, `infinity` or `nan` (in any letter case), or digits with at
//! most one decimal point and an optional exponent (`e` or `E`, optional sign,
//! digits). The value of such a number is analysed exactly, from its digits.

use vstd::prelude::*;
use crate::text::chars_of;

verus! {

pub open spec fn is_digit(c: char) -> bool {
    '0' <= c && c <= '9'
}

pub open spec fn is_sign(c: char) -> bool {
    c == '+' || c == '-'
}

pub open spec fn is_exp_mark(c: char) -> bool {
    c == 'e' || c == 'E'
}

/// ASCII lower-casing of one character; other characters are unchanged.
pub open spec fn ascii_lower(c: char) -> char {
    if 'A' <= c && c <= 'Z' {
        ((c as u32) + 32) as char
    } else {
        c
    }
}

pub open spec fn lower(t: Seq<char>) -> Seq<char> {
    Seq::new(t.len(), |i: int| ascii_lower(t[i]))
}

/// Length of the optional leading sign.
pub open spec fn sign_len(s: Seq<char>) -> int {
    if s.len() > 0 && is_sign(s[0]) {
        1
    } else {
        0
    }
}

pub open spec fn unsigned_part(s: Seq<char>) -> Seq<char> {
    s.skip(sign_len(s))
}

pub open spec fn is_negative(s: Seq<char>) -> bool {
    s.len() > 0 && s[0] == '-'
}

/// Index of the first exponent mark, or the length when there is none.
pub open spec fn exp_mark_index(t: Seq<char>) -> int
    decreases t.len(),
{
    if t.len() == 0 {
        0
    } else if is_exp_mark(t[0]) {
        0
    } else {
        1 + exp_mark_index(t.drop_first())
    }
}

/// Index of the first decimal point, or the length when there is none.
pub open spec fn dot_index(t: Seq<char>) -> int
    decreases t.len(),
{
    if t.len() == 0 {
        0
    } else if t[0] == '.' {
        0
    } else {
        1 + dot_index(t.drop_first())
    }
}

/// Index of the first digit other than `0`, or the length when there is none.
pub open spec fn nonzero_index(t: Seq<char>) -> int
    decreases t.len(),
{
    if t.len() == 0 {
        0
    } else if t[0] != '0' {
        0
    } else {
        1 + nonzero_index(t.drop_first())
    }
}

/// Digits with at most one decimal point, and at least one digit.
pub open spec fn mantissa_ok(m: Seq<char>) -> bool {
    &&& forall|i: int| 0 <= i < m.len() ==> is_digit(#[trigger] m[i]) || m[i] == '.'
    &&& forall|i: int, j: int|
        0 <= i < m.len() && 0 <= j < m.len() && #[trigger] m[i] == '.' && #[trigger] m[j] == '.'
            ==> i == j
    &&& exists|i: int| 0 <= i < m.len() && is_digit(#[trigger] m[i])
}

/// An optional sign followed by at least one digit.
pub open spec fn exponent_ok(x: Seq<char>) -> bool {
    let y = x.skip(sign_len(x));
    &&& y.len() > 0
    &&& forall|i: int| 0 <= i < y.len() ==> is_digit(#[trigger] y[i])
}

/// An unsigned decimal number: mantissa, then optionally an exponent.
pub open spec fn is_number(t: Seq<char>) -> bool {
    let k = exp_mark_index(t);
    &&& mantissa_ok(t.take(k))
    &&& (k == t.len() || exponent_ok(t.skip(k + 1)))
}


/// The digits of the mantissa before the decimal point.
pub open spec fn int_digits(m: Seq<char>) -> Seq<char> {
    m.take(dot_index(m))
}

/// The digits of the mantissa after the decimal point.
pub open spec fn frac_digits(m: Seq<char>) -> Seq<char> {
    if dot_index(m) < m.len() {
        m.skip(dot_index(m) + 1)
    } else {
        Seq::empty()
    }
}

/// All mantissa digits, without the decimal point.
pub open spec fn mantissa_digits(t: Seq<char>) -> Seq<char> {
    let m = t.take(exp_mark_index(t));
    int_digits(m) + frac_digits(m)
}

/// The value of a sequence of decimal digits.
pub open spec fn digits_value(x: Seq<char>) -> nat
    decreases x.len(),
{
    if x.len() == 0 {
        0
    } else {
        digits_value(x.drop_last()) * 10 + ((x.last() as int - 48) as nat)
    }
}

/// The signed value of the exponent (zero when there is none).
pub open spec fn exponent_value(t: Seq<char>) -> int {
    let k = exp_mark_index(t);
    if k == t.len() {
        0
    } else {
        let x = t.skip(k + 1);
        let v = digits_value(x.skip(sign_len(x)));
        if is_negative(x) {
            -v
        } else {
            v as int
        }
    }
}

/// The significant digits of a number: its mantissa digits from the first
/// non-zero one on (empty for zero).
pub open spec fn significant_digits(t: Seq<char>) -> Seq<char> {
    let d = mantissa_digits(t);
    d.skip(nonzero_index(d))
}

/// The decimal exponent `p` with value `0.d1d2d3... * 10^p`, where `d1d2d3...`
/// are the significant digits.
pub open spec fn point_position(t: Seq<char>) -> int {
    let m = t.take(exp_mark_index(t));
    int_digits(m).len() - nonzero_index(mantissa_digits(t)) + exponent_value(t)
}

/// Order of two decimal fractions `0.a` and `0.b` given by their digits.
pub open spec fn digits_le(a: Seq<char>, b: Seq<char>) -> bool
    decreases a.len(),
{
    if a.len() == 0 {
        true
    } else if b.len() == 0 {
        forall|i: int| 0 <= i < a.len() ==> #[trigger] a[i] == '0'
    } else if a[0] < b[0] {
        true
    } else if a[0] > b[0] {
        false
    } else {
        digits_le(a.drop_first(), b.drop_first())
    }
}

/// Digits of the exact value 1 + 2^-53, the largest number that rounds to 1.0
/// as a 64-bit float (decimal exponent 1).
pub open spec fn one_bound_digits() -> Seq<char> {
    "100000000000000011102230246251565404236316680908203125"@
}

/// Digits of the exact value 2^-1075, the largest magnitude that rounds to zero
/// as a 64-bit float (decimal exponent -323).
pub open spec fn zero_bound_digits() -> Seq<char> {
    "24703282292062327208828439643411068618252990130716238221279284125033775363510437593264991818081799618989828234772285886546332835517796989819938739800539093906315035659515570226392290858392449105184435931802849936536152500319370457678249219365623669863658480757001585769269903706311928279558551332927834338409351978015531246597263579574622766465272827220056374006485499977096599470454020828166226237857393450736339007967761930577506740176324673600968951340535537458516661134223766678604162159680461914467291840300530057530849048765391711386591646239524912623653881879636239373280423891018672348497668235089863388587925628302755995657524455507255189313690836254779186948667994968324049705821028513185451396213837722826145437693412532098591327667236328125"@
}

/// Whether the number `s` (a float literal) rounds, as a 64-bit float, to a
/// value `v` with `0.0 <= v <= 1.0`: zero (of either sign), or a non-negative
/// value up to 1 + 2^-53, or a negative value of magnitude at most 2^-1075.
pub open spec fn in_unit_interval(s: Seq<char>) -> bool {
    let t = unsigned_part(s);
    if !is_number(t) {
        false
    } else {
        let d = significant_digits(t);
        let p = point_position(t);
        if d.len() == 0 {
            true
        } else if is_negative(s) {
            p < -323 || (p == -323 && digits_le(d, zero_bound_digits()))
        } else {
            p < 1 || (p == 1 && digits_le(d, one_bound_digits()))
        }
    }
}

/// The exact significant digits of a number and its decimal exponent, the
/// latter clamped far outside the range where it matters.
struct Analysis {
    digits: Vec<char>,
    point: i128,
}

pub open spec fn exponent_cap() -> int {
    0x10000000000000000000000000
}

/// The value of `y[lo..hi]` as decimal digits, saturated at `exponent_cap()`.
fn saturated_value(s: &Vec<char>, lo: usize) -> (v: i128)
    requires
        lo <= s@.len(),
        forall|j: int| lo <= j < s@.len() ==> is_digit(#[trigger] s@[j]),
    ensures
        0 <= v <= exponent_cap(),
        digits_value(s@.skip(lo as int)) < exponent_cap() ==> v == digits_value(s@.skip(lo as int)),
        digits_value(s@.skip(lo as int)) >= exponent_cap() ==> v == exponent_cap(),
{
    let ghost y = s@.skip(lo as int);
    let cap: i128 = 0x10000000000000000000000000;
    let mut v: i128 = 0;
    let mut i = lo;
    while i < s.len()
        invariant
            lo <= i <= s@.len(),
            y == s@.skip(lo as int),
            forall|j: int| lo <= j < s@.len() ==> is_digit(#[trigger] s@[j]),
            cap == exponent_cap(),
            0 <= v <= cap,
            digits_value(y.take(i - lo)) < cap ==> v == digits_value(y.take(i - lo)),
            digits_value(y.take(i - lo)) >= cap ==> v == cap,
        decreases s@.len() - i,
    {
        let c = s[i];
        assert(is_digit(s@[i as int]));
        let d: i128 = (c as u32 - 48) as i128;
        proof {
            let a = y.take(i - lo);
            let b = y.take(i - lo + 1);
            assert(b.drop_last() =~= a);
            assert(b.last() == c);
            assert(digits_value(b) == digits_value(a) * 10 + d);
        }
        if v >= cap || v * 10 + d >= cap {
            v = cap;
        } else {
            v = v * 10 + d;
        }
        i = i + 1;
    }
    assert(y.take(s@.len() - lo) =~= y);
    v
}

#[verifier::rlimit(40)]
fn analyze(s: &Vec<char>, lo: usize) -> (a: Analysis)
    requires
        lo <= s@.len(),
        is_number(s@.skip(lo as int)),
    ensures
        a.digits@ == significant_digits(s@.skip(lo as int)),
        -1000 <= a.point <= 1000 ==> a.point == point_position(s@.skip(lo as int)),
        a.point > 1000 ==> point_position(s@.skip(lo as int)) > 1000,
        a.point < -1000 ==> point_position(s@.skip(lo as int)) < -1000,
        exp_mark_index(s@.skip(lo as int)) == s@.len() - lo ==> a.point == point_position(s@.skip(lo as int)),
        -0x100000000000000000000000000 <= a.point <= 0x100000000000000000000000000,
{
    let ghost t = s@.skip(lo as int);
    let k = find_exp_mark(s, lo);
    let ghost m = t.take(k - lo);
    assert(m =~= s@.subrange(lo as int, k as int));
    // the decimal point
    let mut d_at = lo;
    while d_at < k && s[d_at] != '.'
        invariant
            lo <= d_at <= k <= s@.len(),
            forall|j: int| lo <= j < d_at ==> #[trigger] s@[j] != '.',
        decreases k - d_at,
    {
        d_at = d_at + 1;
    }
    proof {
        assert forall|j: int| 0 <= j < d_at - lo implies #[trigger] m[j] != '.' by {
            assert(m[j] == s@[lo + j]);
        }
        lemma_dot_index(m, d_at - lo);
    }
    // all mantissa digits
    let mut digits: Vec<char> = Vec::new();
    let mut i = lo;
    while i < k
        invariant
            lo <= d_at <= k <= s@.len(),
            lo <= i <= k,
            m == s@.subrange(lo as int, k as int),
            dot_index(m) == d_at - lo,
            i <= d_at ==> digits@ == m.take(i - lo),
            i > d_at ==> digits@ == m.take(d_at - lo) + m.subrange(d_at - lo + 1, i - lo),
        decreases k - i,
    {
        if i != d_at {
            digits.push(s[i]);
        }
        proof {
            if i < d_at {
                assert(m.take(i - lo + 1) =~= m.take(i - lo).push(s@[i as int]));
            } else if i == d_at {
                assert(m.subrange(d_at - lo + 1, i - lo + 1) =~= Seq::<char>::empty());
                assert(digits@ =~= m.take(d_at - lo) + m.subrange(d_at - lo + 1, i - lo + 1));
            } else {
                assert(m.subrange(d_at - lo + 1, i - lo + 1) =~= m.subrange(d_at - lo + 1, i - lo).push(s@[i as int]));
            }
        }
        i = i + 1;
    }
    proof {
        if d_at < k {
            assert(m.subrange(d_at - lo + 1, k - lo) =~= m.skip(d_at - lo + 1));
        } else {
            assert(m.take(k - lo) =~= m);
        }
        assert(digits@ =~= int_digits(m) + frac_digits(m));
    }
    // the first non-zero digit
    let mut nz: usize = 0;
    while nz < digits.len() && digits[nz] == '0'
        invariant
            0 <= nz <= digits@.len(),
            forall|j: int| 0 <= j < nz ==> #[trigger] digits@[j] == '0',
        decreases digits@.len() - nz,
    {
        nz = nz + 1;
    }
    proof {
        lemma_nonzero_index(digits@, nz as int);
    }
    let mut sig: Vec<char> = Vec::new();
    let mut j = nz;
    while j < digits.len()
        invariant
            nz <= j <= digits@.len(),
            sig@ == digits@.subrange(nz as int, j as int),
        decreases digits@.len() - j,
    {
        sig.push(digits[j]);
        proof {
            assert(digits@.subrange(nz as int, j + 1) =~= digits@.subrange(nz as int, j as int).push(digits@[j as int]));
        }
        j = j + 1;
    }
    assert(sig@ =~= digits@.skip(nz as int));
    // the exponent
    let e: i128 = if k == s.len() {
        0
    } else {
        let ghost x = t.skip(k - lo + 1);
        assert(x =~= s@.skip(k + 1));
        let neg = s.len() > k + 1 && s[k + 1] == '-';
        let start = if s.len() > k + 1 && (s[k + 1] == '+' || s[k + 1] == '-') { k + 2 } else { k + 1 };
        let ghost y = x.skip(sign_len(x));
        assert(y =~= s@.skip(start as int));
        assert forall|q: int| start <= q < s@.len() implies is_digit(#[trigger] s@[q]) by {
            assert(s@[q] == y[q - start]);
        }
        let v = saturated_value(s, start);
        if neg { -v } else { v }
    };
    let ghost int_count = d_at - lo;
    assert(int_digits(m).len() == int_count);
    let point: i128 = (d_at - lo) as i128 - nz as i128 + e;
    Analysis { digits: sig, point }
}


fn digits_le_exec(a: &Vec<char>, b: &Vec<char>) -> (r: bool)
    ensures
        r == digits_le(a@, b@),
{
    let mut i: usize = 0;
    assert(a@.skip(0) =~= a@);
    assert(b@.skip(0) =~= b@);
    while i < a.len() && i < b.len() && a[i] == b[i]
        invariant
            i <= a@.len(),
            i <= b@.len(),
            digits_le(a@, b@) == digits_le(a@.skip(i as int), b@.skip(i as int)),
        decreases a@.len() - i,
    {
        proof {
            assert(a@.skip(i as int).drop_first() =~= a@.skip(i + 1));
            assert(b@.skip(i as int).drop_first() =~= b@.skip(i + 1));
        }
        i = i + 1;
    }
    let ghost x = a@.skip(i as int);
    if i == a.len() {
        assert(x.len() == 0);
        return true;
    }
    if i == b.len() {
        let mut j = i;
        while j < a.len()
            invariant
                i <= j <= a@.len(),
                i == b@.len(),
                x == a@.skip(i as int),
                digits_le(a@, b@) == digits_le(x, b@.skip(i as int)),
                forall|q: int| 0 <= q < j - i ==> #[trigger] x[q] == '0',
            decreases a@.len() - j,
        {
            assert(x[j - i] == a@[j as int]);
            if a[j] != '0' {
                assert(b@.skip(i as int).len() == 0);
                assert(x.len() > 0);
                assert(x[j - i] != '0');
                return false;
            }
            j = j + 1;
        }
        assert(b@.skip(i as int).len() == 0);
        return true;
    }
    assert(x[0] == a@[i as int]);
    assert(b@.skip(i as int)[0] == b@[i as int]);
    a[i] < b[i]
}

/// Whether the float literal `s` rounds to a 64-bit float within `[0.0, 1.0]`.
pub fn in_unit_interval_exec(s: &Vec<char>) -> (r: bool)
    requires
        is_float_literal(s@),
    ensures
        r == in_unit_interval(s@),
{
    let lo = sign_len_exec(s);
    assert(unsigned_part(s@) =~= s@.skip(lo as int));
    if !number_check(s, lo) {
        return false;
    }
    let a = analyze(s, lo);
    if a.digits.len() == 0 {
        return true;
    }
    let neg = s.len() > 0 && s[0] == '-';
    if neg {
        if a.point < -323 {
            return true;
        }
        if a.point > -323 {
            return false;
        }
        let bound = chars_of("24703282292062327208828439643411068618252990130716238221279284125033775363510437593264991818081799618989828234772285886546332835517796989819938739800539093906315035659515570226392290858392449105184435931802849936536152500319370457678249219365623669863658480757001585769269903706311928279558551332927834338409351978015531246597263579574622766465272827220056374006485499977096599470454020828166226237857393450736339007967761930577506740176324673600968951340535537458516661134223766678604162159680461914467291840300530057530849048765391711386591646239524912623653881879636239373280423891018672348497668235089863388587925628302755995657524455507255189313690836254779186948667994968324049705821028513185451396213837722826145437693412532098591327667236328125");
        digits_le_exec(&a.digits, &bound)
    } else {
        if a.point < 1 {
            return true;
        }
        if a.point > 1 {
            return false;
        }
        let bound = chars_of("100000000000000011102230246251565404236316680908203125");
        digits_le_exec(&a.digits, &bound)
    }
}


/// Whether `s` is text that the standard library parses as a 64-bit float.
pub open spec fn is_float_literal(s: Seq<char>) -> bool {
    let t = unsigned_part(s);
    ||| lower(t) == "inf"@
    ||| lower(t) == "infinity"@
    ||| lower(t) == "nan"@
    ||| is_number(t)
}

proof fn lemma_exp_mark_index(t: Seq<char>, k: int)
    requires
        0 <= k <= t.len(),
        forall|j: int| 0 <= j < k ==> !is_exp_mark(#[trigger] t[j]),
        k == t.len() || is_exp_mark(t[k]),
    ensures
        exp_mark_index(t) == k,
    decreases k,
{
    if k > 0 {
        assert(!is_exp_mark(t[0]));
        lemma_exp_mark_index(t.drop_first(), k - 1);
    }
}

proof fn lemma_nonzero_index_bounds(t: Seq<char>)
    ensures
        0 <= nonzero_index(t) <= t.len(),
    decreases t.len(),
{
    if t.len() > 0 && t[0] == '0' {
        lemma_nonzero_index_bounds(t.drop_first());
    }
}

proof fn lemma_nonzero_index_char(t: Seq<char>)
    requires
        nonzero_index(t) < t.len(),
    ensures
        0 <= nonzero_index(t),
        t[nonzero_index(t)] != '0',
    decreases t.len(),
{
    if t.len() > 0 && t[0] == '0' {
        lemma_nonzero_index_char(t.drop_first());
    }
}

proof fn lemma_dot_index(t: Seq<char>, k: int)
    requires
        0 <= k <= t.len(),
        forall|j: int| 0 <= j < k ==> #[trigger] t[j] != '.',
        k == t.len() || t[k] == '.',
    ensures
        dot_index(t) == k,
    decreases k,
{
    if k > 0 {
        assert(t[0] != '.');
        lemma_dot_index(t.drop_first(), k - 1);
    }
}

proof fn lemma_nonzero_index(t: Seq<char>, k: int)
    requires
        0 <= k <= t.len(),
        forall|j: int| 0 <= j < k ==> #[trigger] t[j] == '0',
        k == t.len() || t[k] != '0',
    ensures
        nonzero_index(t) == k,
    decreases k,
{
    if k > 0 {
        assert(t[0] == '0');
        lemma_nonzero_index(t.drop_first(), k - 1);
    }
}

fn ascii_lower_exec(c: char) -> (r: char)
    ensures
        r == ascii_lower(c),
{
    if 'A' <= c && c <= 'Z' {
        let u: u32 = (c as u32) + 32;
        assert(u < 0xD800);
        let b: u8 = u as u8;
        b as char
    } else {
        c
    }
}

/// Whether `t[lo..hi]`, lower-cased, equals `word`.
fn lower_eq(t: &Vec<char>, lo: usize, hi: usize, word: &str) -> (r: bool)
    requires
        lo <= hi <= t@.len(),
    ensures
        r == (lower(t@.subrange(lo as int, hi as int)) == word@),
{
    let w = chars_of(word);
    let ghost u = t@.subrange(lo as int, hi as int);
    if hi - lo != w.len() {
        assert(lower(u).len() != word@.len());
        return false;
    }
    let mut i: usize = 0;
    while i < w.len()
        invariant
            lo <= hi <= t@.len(),
            hi - lo == w@.len(),
            w@ == word@,
            u == t@.subrange(lo as int, hi as int),
            0 <= i <= w@.len(),
            forall|j: int| 0 <= j < i ==> lower(u)[j] == #[trigger] w@[j],
        decreases w@.len() - i,
    {
        if ascii_lower_exec(t[lo + i]) != w[i] {
            assert(lower(u)[i as int] != w@[i as int]);
            return false;
        }
        i = i + 1;
    }
    assert(lower(u) =~= w@);
    true
}

fn sign_len_exec(s: &Vec<char>) -> (r: usize)
    ensures
        r == sign_len(s@),
{
    if s.len() > 0 && (s[0] == '+' || s[0] == '-') {
        1
    } else {
        0
    }
}

/// Position of the first exponent mark at or after `lo`, or the length.
fn find_exp_mark(s: &Vec<char>, lo: usize) -> (k: usize)
    requires
        lo <= s@.len(),
    ensures
        lo <= k <= s@.len(),
        k - lo == exp_mark_index(s@.skip(lo as int)),
{
    let mut k = lo;
    while k < s.len() && !(s[k] == 'e' || s[k] == 'E')
        invariant
            lo <= k <= s@.len(),
            forall|j: int| lo <= j < k ==> !is_exp_mark(#[trigger] s@[j]),
        decreases s@.len() - k,
    {
        k = k + 1;
    }
    proof {
        let t = s@.skip(lo as int);
        assert forall|j: int| 0 <= j < k - lo implies !is_exp_mark(#[trigger] t[j]) by {
            assert(t[j] == s@[lo + j]);
        }
        lemma_exp_mark_index(t, k - lo);
    }
    k
}

/// Whether `s[lo..hi]` is a valid mantissa.
fn mantissa_check(s: &Vec<char>, lo: usize, hi: usize) -> (r: bool)
    requires
        lo <= hi <= s@.len(),
    ensures
        r == mantissa_ok(s@.subrange(lo as int, hi as int)),
{
    let ghost m = s@.subrange(lo as int, hi as int);
    let mut i = lo;
    let mut dots: usize = 0;
    let mut digits = false;
    let mut dot_at: usize = 0;
    while i < hi
        invariant
            lo <= i <= hi <= s@.len(),
            m == s@.subrange(lo as int, hi as int),
            forall|j: int| 0 <= j < i - lo ==> is_digit(#[trigger] m[j]) || m[j] == '.',
            dots <= 1,
            dots == 0 ==> forall|j: int| 0 <= j < i - lo ==> #[trigger] m[j] != '.',
            dots == 1 ==> lo <= dot_at < i && m[dot_at - lo] == '.',
            dots == 1 ==> forall|j: int| 0 <= j < i - lo && #[trigger] m[j] == '.' ==> j == dot_at - lo,
            digits <==> exists|j: int| 0 <= j < i - lo && is_digit(#[trigger] m[j]),
        decreases hi - i,
    {
        let c = s[i];
        assert(m[i - lo] == c);
        if c == '.' {
            if dots == 1 {
                assert(m[dot_at - lo] == '.' && m[i - lo] == '.');
                return false;
            }
            dots = 1;
            dot_at = i;
        } else if '0' <= c && c <= '9' {
            digits = true;
        } else {
            return false;
        }
        i = i + 1;
    }
    digits
}

/// Whether `s[lo..]` is a valid exponent (after the exponent mark).
fn exponent_check(s: &Vec<char>, lo: usize) -> (r: bool)
    requires
        lo <= s@.len(),
    ensures
        r == exponent_ok(s@.skip(lo as int)),
{
    let ghost x = s@.skip(lo as int);
    let start = if lo < s.len() && (s[lo] == '+' || s[lo] == '-') {
        lo + 1
    } else {
        lo
    };
    let ghost y = x.skip(sign_len(x));
    assert(y =~= s@.skip(start as int));
    if start == s.len() {
        return false;
    }
    let mut i = start;
    while i < s.len()
        invariant
            start <= i <= s@.len(),
            y == s@.skip(start as int),
            x == s@.skip(lo as int),
            y == x.skip(sign_len(x)),
            forall|j: int| 0 <= j < i - start ==> is_digit(#[trigger] y[j]),
        decreases s@.len() - i,
    {
        assert(y[i - start] == s@[i as int]);
        if !('0' <= s[i] && s[i] <= '9') {
            return false;
        }
        i = i + 1;
    }
    true
}

/// Whether `s[lo..]` is an unsigned decimal number.
fn number_check(s: &Vec<char>, lo: usize) -> (r: bool)
    requires
        lo <= s@.len(),
    ensures
        r == is_number(s@.skip(lo as int)),
{
    let ghost t = s@.skip(lo as int);
    let k = find_exp_mark(s, lo);
    assert(t.take(k - lo) =~= s@.subrange(lo as int, k as int));
    if !mantissa_check(s, lo, k) {
        return false;
    }
    if k == s.len() {
        return true;
    }
    assert(t.skip(k - lo + 1) =~= s@.skip(k + 1));
    exponent_check(s, k + 1)
}

/// Whether `s` is text that parses as a 64-bit float (see the module documentation).
pub fn is_float_text(s: &Vec<char>) -> (r: bool)
    ensures
        r == is_float_literal(s@),
{
    let lo = sign_len_exec(s);
    let ghost t = unsigned_part(s@);
    assert(t =~= s@.subrange(lo as int, s@.len() as int));
    if lower_eq(s, lo, s.len(), "inf") || lower_eq(s, lo, s.len(), "infinity") || lower_eq(s, lo, s.len(), "nan") {
        return true;
    }
    number_check(s, lo)
}

} // verus!
