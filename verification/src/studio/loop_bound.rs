//! How a bound of `:loop <start> <end>` reads as a number.
//!
//! A bound is what `str::parse::<f64>` accepts: an optional sign, then `inf`,
//! `infinity` or `nan` in any case, or digits with at most one `.` and an
//! optional exponent (`e`, an optional sign, digits). A bound that names
//! infinity or NaN, or a negative one, is refused. A plain decimal of at most
//! fifteen digits is held exactly, in units of 10^-15: every such decimal is
//! told apart from every other by a `f64` too, so order and sign come out as
//! they would on the parsed numbers. Any other numeral (one with an exponent,
//! or longer) is left to the caller, who reads it as a floating-point number.
use vstd::prelude::*;
use crate::text::{
    all_digits, ascii_lowercase, chars_of, digit_value, digits_value, eq_chars, first_index_of,
    first_where, is_ascii_digit, is_digit, lemma_digits_value_step, lemma_first_index_of,
    lemma_first_where, pow10, read_digits, to_lower,
};

verus! {

/// What a loop bound reads as.
#[derive(Debug, PartialEq, Eq)]
pub enum LoopBound {
    /// Not a number at all.
    NotNumber,
    /// Infinity, NaN, or a number below zero.
    NotNonNegative,
    /// A plain decimal, in units of 10^-15.
    Exact(u128),
    /// A valid numeral whose value needs floating point.
    Inexact,
}

/// A loop bound as plain values.
pub enum BoundReading {
    NotNumber,
    NotNonNegative,
    Exact(nat),
    Inexact,
}

pub open spec fn bound_view(b: LoopBound) -> BoundReading {
    match b {
        LoopBound::NotNumber => BoundReading::NotNumber,
        LoopBound::NotNonNegative => BoundReading::NotNonNegative,
        LoopBound::Exact(v) => BoundReading::Exact(v as nat),
        LoopBound::Inexact => BoundReading::Inexact,
    }
}

/// Length of the leading sign of `s`: one for `+` or `-`, else zero.
pub open spec fn sign_len(s: Seq<char>) -> int {
    if s.len() > 0 && (s[0] == '+' || s[0] == '-') {
        1
    } else {
        0
    }
}

/// `s` with ASCII capitals made small.
pub open spec fn lowered(s: Seq<char>) -> Seq<char> {
    s.map_values(|c: char| to_lower(c))
}

/// Whether `u` spells `inf`, `infinity` or `nan`, in any case.
#[verifier::opaque]
pub open spec fn names_inf_or_nan(u: Seq<char>) -> bool {
    lowered(u) == "inf"@ || lowered(u) == "infinity"@ || lowered(u) == "nan"@
}

/// Position of the first `e` or `E` of `u`.
#[verifier::opaque]
pub open spec fn exp_mark(u: Seq<char>) -> Option<int> {
    first_where(u.len() as int, |i: int| u[i] == 'e' || u[i] == 'E')
}

/// The part of `u` before its exponent.
pub open spec fn mantissa(u: Seq<char>) -> Seq<char> {
    match exp_mark(u) {
        Some(k) => u.take(k),
        None => u,
    }
}

/// The digits of a mantissa before its `.`.
#[verifier::opaque]
pub open spec fn int_digits(m: Seq<char>) -> Seq<char> {
    match first_index_of(m, '.') {
        Some(d) => m.take(d),
        None => m,
    }
}

/// The digits of a mantissa after its `.`.
#[verifier::opaque]
pub open spec fn frac_digits(m: Seq<char>) -> Seq<char> {
    match first_index_of(m, '.') {
        Some(d) => m.skip(d + 1),
        None => Seq::empty(),
    }
}

/// Whether `x`, the text after an exponent mark, is an optional sign and digits.
pub open spec fn is_exponent(x: Seq<char>) -> bool {
    let y = x.skip(sign_len(x));
    y.len() > 0 && all_digits(y)
}

/// Whether the unsigned part `u` of a bound is a numeral: digits with at most one
/// `.`, at least one digit, then perhaps an exponent.
pub open spec fn is_numeral(u: Seq<char>) -> bool {
    let m = mantissa(u);
    &&& all_digits(int_digits(m))
    &&& all_digits(frac_digits(m))
    &&& int_digits(m).len() + frac_digits(m).len() > 0
    &&& match exp_mark(u) {
        Some(k) => is_exponent(u.skip(k + 1)),
        None => true,
    }
}

/// The value of the digits `i` `.` `f`, in units of 10^-15.
pub open spec fn scaled_value(i: Seq<char>, f: Seq<char>) -> nat {
    digits_value(i) * pow10(15) + digits_value(f) * pow10((15 - f.len()) as nat)
}

/// How the loop bound `s` reads.
pub open spec fn read_bound(s: Seq<char>) -> BoundReading {
    let u = s.skip(sign_len(s));
    let m = mantissa(u);
    if names_inf_or_nan(u) {
        BoundReading::NotNonNegative
    } else if !is_numeral(u) {
        BoundReading::NotNumber
    } else if exp_mark(u) is Some || int_digits(m).len() + frac_digits(m).len() > 15 {
        BoundReading::Inexact
    } else if s[0] == '-' && scaled_value(int_digits(m), frac_digits(m)) > 0 {
        BoundReading::NotNonNegative
    } else {
        BoundReading::Exact(scaled_value(int_digits(m), frac_digits(m)))
    }
}

proof fn lemma_digits_value_below(s: Seq<char>)
    requires
        all_digits(s),
    ensures
        digits_value(s) < pow10(s.len()),
    decreases s.len(),
{
    if s.len() > 0 {
        let t = s.drop_last();
        assert(all_digits(t)) by {
            assert forall|j: int| 0 <= j < t.len() implies is_digit(#[trigger] t[j]) by {
                assert(t[j] == s[j]);
            }
        }
        lemma_digits_value_below(t);
        assert(is_digit(s[s.len() - 1]));
        assert(digit_value(s.last()) <= 9);
        assert(pow10(s.len()) == 10 * pow10(t.len()));
    }
}

proof fn lemma_pow10_mono(a: nat, b: nat)
    requires
        a <= b,
    ensures
        1 <= pow10(a) <= pow10(b),
    decreases b,
{
    if a < b {
        lemma_pow10_mono(a, (b - 1) as nat);
    } else if a > 0 {
        lemma_pow10_mono((a - 1) as nat, (a - 1) as nat);
    }
}

/// Whether every character of `v[a..b]` is a digit.
fn digits_between(v: &Vec<char>, a: usize, b: usize) -> (r: bool)
    requires
        a <= b <= v.len(),
    ensures
        r == all_digits(v@.subrange(a as int, b as int)),
{
    let ghost d = v@.subrange(a as int, b as int);
    let mut i = a;
    while i < b
        invariant
            a <= i <= b <= v.len(),
            d == v@.subrange(a as int, b as int),
            forall|j: int| 0 <= j < i - a ==> is_digit(#[trigger] d[j]),
        decreases b - i,
    {
        if !is_ascii_digit(v[i]) {
            assert(d[i - a] == v@[i as int]);
            return false;
        }
        assert(d[i - a] == v@[i as int]);
        i += 1;
    }
    true
}

/// `v[from..]` with ASCII capitals made small.
fn lowered_from(v: &Vec<char>, from: usize) -> (r: Vec<char>)
    requires
        from <= v.len(),
    ensures
        r@ == lowered(v@.skip(from as int)),
{
    let ghost u = v@.skip(from as int);
    let mut r: Vec<char> = Vec::new();
    let mut i = from;
    while i < v.len()
        invariant
            from <= i <= v.len(),
            u == v@.skip(from as int),
            r@ == lowered(u).take(i - from),
        decreases v.len() - i,
    {
        r.push(ascii_lowercase(v[i]));
        i += 1;
        assert(r@ =~= lowered(u).take(i - from));
    }
    assert(lowered(u).take(i - from) =~= lowered(u));
    r
}

/// `10^k` for `k` up to fifteen.
fn pow10_exec(k: usize) -> (r: u128)
    requires
        k <= 15,
    ensures
        r == pow10(k as nat),
        r <= 1_000_000_000_000_000,
{
    let mut r: u128 = 1;
    let mut i: usize = 0;
    proof {
        reveal_with_fuel(pow10, 16);
        lemma_pow10_mono(k as nat, 15);
    }
    while i < k
        invariant
            i <= k <= 15,
            r == pow10(i as nat),
            pow10(k as nat) <= 1_000_000_000_000_000,
        decreases k - i,
    {
        proof {
            lemma_pow10_mono((i + 1) as nat, k as nat);
        }
        r = r * 10;
        i += 1;
    }
    r
}

/// The value of the digits `v[a..b]`, of which there are at most fifteen.
fn short_digits_value(v: &Vec<char>, a: usize, b: usize) -> (r: u64)
    requires
        a <= b <= v.len(),
        b - a <= 15,
        all_digits(v@.subrange(a as int, b as int)),
    ensures
        r == digits_value(v@.subrange(a as int, b as int)),
        r < 1_000_000_000_000_000,
{
    let ghost d = v@.subrange(a as int, b as int);
    proof {
        lemma_digits_value_below(d);
        lemma_pow10_mono(d.len(), 15);
        reveal_with_fuel(pow10, 16);
    }
    if a == b {
        assert(d.len() == 0);
        return 0;
    }
    match read_digits(v, a, b, 999_999_999_999_999) {
        Some(n) => n,
        None => {
            assert(false);
            0
        },
    }
}

/// Position of the first `e` or `E` of `w[s..]`, or the length of `w`.
fn exponent_position(w: &Vec<char>, s: usize) -> (k: usize)
    requires
        s <= w.len(),
    ensures
        s <= k <= w.len(),
        exp_mark(w@.skip(s as int)) == (if k < w.len() { Some(k - s) } else { None::<int> }),
{
    let ghost u = w@.skip(s as int);
    let n = w.len();
    let mut k = s;
    while k < n && w[k] != 'e' && w[k] != 'E'
        invariant
            s <= k <= n == w.len(),
            forall|j: int| s <= j < k ==> w@[j] != 'e' && w@[j] != 'E',
        decreases n - k,
    {
        k += 1;
    }
    let ghost p = |i: int| u[i] == 'e' || u[i] == 'E';
    proof {
        assert forall|j: int| 0 <= j < k - s implies !#[trigger] p(j) by {
            assert(u[j] == w@[j + s]);
        }
        if k < n {
            assert(u[k - s] == w@[k as int]);
        }
        lemma_first_where(u.len() as int, p, k - s);
        reveal(exp_mark);
    }
    k
}

/// Where the digits of the mantissa `w[s..k]` lie: `w[s..d]` before the point,
/// `w[f0..k]` after it.
fn point_position(w: &Vec<char>, s: usize, k: usize) -> (r: (usize, usize))
    requires
        s <= k <= w.len(),
    ensures
        s <= r.0 <= r.1 <= k,
        int_digits(w@.subrange(s as int, k as int)) == w@.subrange(s as int, r.0 as int),
        frac_digits(w@.subrange(s as int, k as int)) == w@.subrange(r.1 as int, k as int),
{
    let ghost m = w@.subrange(s as int, k as int);
    let mut d = s;
    while d < k && w[d] != '.'
        invariant
            s <= d <= k <= w.len(),
            forall|j: int| s <= j < d ==> w@[j] != '.',
        decreases k - d,
    {
        d += 1;
    }
    proof {
        assert forall|j: int| 0 <= j < d - s implies m[j] != '.' by {
            assert(m[j] == w@[j + s]);
        }
        if d < k {
            assert(m[d - s] == w@[d as int]);
        }
        lemma_first_index_of(m, '.', d - s);
        reveal(int_digits);
        reveal(frac_digits);
    }
    let f0: usize = if d < k { d + 1 } else { k };
    assert(int_digits(m) =~= w@.subrange(s as int, d as int));
    assert(frac_digits(m) =~= w@.subrange(f0 as int, k as int));
    (d, f0)
}

/// The value of the digits `w[s..d]` `.` `w[f0..k]`, in units of 10^-15.
fn exact_value(w: &Vec<char>, s: usize, d: usize, f0: usize, k: usize) -> (r: u128)
    requires
        s <= d <= f0 <= k <= w.len(),
        (d - s) + (k - f0) <= 15,
        all_digits(w@.subrange(s as int, d as int)),
        all_digits(w@.subrange(f0 as int, k as int)),
    ensures
        r == scaled_value(w@.subrange(s as int, d as int), w@.subrange(f0 as int, k as int)),
{
    let iv = short_digits_value(w, s, d);
    let fv = short_digits_value(w, f0, k);
    let p15 = pow10_exec(15);
    let pf = pow10_exec(15 - (k - f0));
    proof {
        reveal_with_fuel(pow10, 16);
        assert(iv * p15 <= 1_000_000_000_000_000 * 1_000_000_000_000_000) by (nonlinear_arith)
            requires
                iv < 1_000_000_000_000_000,
                p15 == 1_000_000_000_000_000,
        ;
        assert(fv * pf <= 1_000_000_000_000_000 * 1_000_000_000_000_000) by (nonlinear_arith)
            requires
                fv < 1_000_000_000_000_000,
                pf <= 1_000_000_000_000_000,
        ;
    }
    (iv as u128) * p15 + (fv as u128) * pf
}

/// Whether `v[from..]` spells `inf`, `infinity` or `nan`, in any case.
fn spells_inf_or_nan(v: &Vec<char>, from: usize) -> (b: bool)
    requires
        from <= v.len(),
    ensures
        b == names_inf_or_nan(v@.skip(from as int)),
{
    let lv = lowered_from(v, from);
    proof {
        reveal(names_inf_or_nan);
    }
    eq_chars(&lv, &chars_of("inf")) || eq_chars(&lv, &chars_of("infinity")) || eq_chars(
        &lv,
        &chars_of("nan"),
    )
}

/// Whether `w[e0..]` is an optional sign and one or more digits.
fn exponent_ok(w: &Vec<char>, e0: usize) -> (b: bool)
    requires
        e0 <= w.len(),
    ensures
        b == is_exponent(w@.skip(e0 as int)),
{
    let n = w.len();
    let ghost x = w@.skip(e0 as int);
    let e1: usize = if e0 < n && (w[e0] == '+' || w[e0] == '-') { e0 + 1 } else { e0 };
    assert(sign_len(x) == e1 - e0);
    assert(x.skip(sign_len(x)) =~= w@.subrange(e1 as int, n as int));
    e1 < n && digits_between(w, e1, n)
}

/// Reads a loop bound.
pub fn read_loop_bound(w: &Vec<char>) -> (r: LoopBound)
    ensures
        bound_view(r) == read_bound(w@),
{
    let n = w.len();
    let s: usize = if n > 0 && (w[0] == '+' || w[0] == '-') { 1 } else { 0 };
    let ghost u = w@.skip(s as int);
    assert(sign_len(w@) == s);
    if spells_inf_or_nan(w, s) {
        return LoopBound::NotNonNegative;
    }
    let k = exponent_position(w, s);
    let ghost m = w@.subrange(s as int, k as int);
    assert(mantissa(u) =~= m);
    let (d, f0) = point_position(w, s, k);
    let int_ok = digits_between(w, s, d);
    let frac_ok = digits_between(w, f0, k);
    if !int_ok || !frac_ok || (d - s) + (k - f0) == 0 {
        return LoopBound::NotNumber;
    }
    if k < n {
        assert(u.skip(k - s + 1) =~= w@.skip(k + 1));
        if !exponent_ok(w, k + 1) {
            return LoopBound::NotNumber;
        }
        return LoopBound::Inexact;
    }
    if (d - s) + (k - f0) > 15 {
        return LoopBound::Inexact;
    }
    let value = exact_value(w, s, d, f0, k);
    if w[0] == '-' && value > 0 {
        return LoopBound::NotNonNegative;
    }
    LoopBound::Exact(value)
}

} // verus!
