//! Exact decimal numbers as they appear in reasoning traces.
//!
//! A [`Decimal`] is `mantissa / 10^scale` with at most twelve significant
//! digits (`|mantissa| < 10^12`) and at most six digits after the point
//! (`scale <= 6`). Parsing follows the grammar of `f64::from_str`
//! (optional sign, digits with an optional point, optional exponent); the
//! literals `inf`, `infinity` and `nan`, and values outside the range above,
//! do not parse. All comparisons are exact.
use vstd::prelude::*;

use vstd::std_specs::cmp::PartialEqSpecImpl;

use crate::text::{digit_char, find_char, first_index, lemma_first_index, nat_to_decimal, push_decimal};

verus! {

/// `10^n`.
pub open spec fn pow10(n: nat) -> nat
    decreases n,
{
    if n == 0 {
        1
    } else {
        10 * pow10((n - 1) as nat)
    }
}

/// Bound on the magnitude of a mantissa: `10^12`.
pub open spec fn mantissa_limit() -> int {
    1_000_000_000_000
}

/// Largest scale (digits after the point).
pub open spec fn max_scale() -> nat {
    6
}

/// An exact decimal `mantissa / 10^scale`.
#[derive(Debug, Clone, Copy)]
pub struct Decimal {
    mantissa: i64,
    scale: u32,
}

impl Decimal {
    #[verifier::type_invariant]
    spec fn in_range(self) -> bool {
        -mantissa_limit() < self.mantissa < mantissa_limit() && self.scale <= max_scale()
    }

    /// The mantissa.
    pub closed spec fn m(self) -> int {
        self.mantissa as int
    }

    /// The number of digits after the point.
    pub closed spec fn s(self) -> nat {
        self.scale as nat
    }

    /// The mantissa.
    pub fn mantissa(&self) -> (m: i64)
        ensures
            m == self.m(),
            -mantissa_limit() < m < mantissa_limit(),
            self.s() <= max_scale(),
    {
        proof {
            use_type_invariant(self);
        }
        self.mantissa
    }

    /// The number of digits after the point.
    pub fn scale(&self) -> (s: u32)
        ensures
            s == self.s(),
            s <= max_scale(),
            -mantissa_limit() < self.m() < mantissa_limit(),
    {
        proof {
            use_type_invariant(self);
        }
        self.scale
    }

    /// `mantissa / 10^scale`, when within range.
    pub fn from_parts(mantissa: i64, scale: u32) -> (r: Option<Decimal>)
        ensures
            r is Some <==> (-mantissa_limit() < mantissa < mantissa_limit() && scale
                <= max_scale()),
            r matches Some(d) ==> d.m() == mantissa && d.s() == scale,
    {
        if -1_000_000_000_000 < mantissa && mantissa < 1_000_000_000_000 && scale <= 6 {
            Some(Decimal { mantissa, scale })
        } else {
            None
        }
    }
}

/// `d1` and `d2` differ by more than `10^-6`.
pub open spec fn differ(d1: Decimal, d2: Decimal) -> bool {
    let lhs = d1.m() * pow10(d2.s()) - d2.m() * pow10(d1.s());
    let l = if lhs < 0 {
        -lhs
    } else {
        lhs
    };
    l * 1_000_000 > pow10(d1.s()) * pow10(d2.s())
}

pub proof fn lemma_pow10_small(n: nat)
    requires
        n <= 12,
    ensures
        n == 0 ==> pow10(n) == 1,
        n == 1 ==> pow10(n) == 10,
        n == 2 ==> pow10(n) == 100,
        n == 3 ==> pow10(n) == 1000,
        n == 4 ==> pow10(n) == 10000,
        n == 5 ==> pow10(n) == 100000,
        n == 6 ==> pow10(n) == 1000000,
        1 <= pow10(n) <= 1_000_000_000_000,
        n <= 6 ==> pow10(n) <= 1_000_000,
        n == 12 ==> pow10(n) == 1_000_000_000_000,
    decreases n,
{
    reveal_with_fuel(pow10, 13);
}

/// `10^n` for small `n`.
pub fn pow10_exec(n: u32) -> (p: u64)
    requires
        n <= 12,
    ensures
        p == pow10(n as nat),
        p <= 1_000_000_000_000,
{
    let mut p: u64 = 1;
    let mut i: u32 = 0;
    while i < n
        invariant
            i <= n <= 12,
            p == pow10(i as nat),
            p <= 1_000_000_000_000,
        decreases n - i,
    {
        proof {
            lemma_pow10_small((i + 1) as nat);
        }
        p = p * 10;
        i = i + 1;
    }
    p
}

proof fn lemma_abs_mul_bound(a: int, b: int, x: int, y: int)
    requires
        -x < a < x,
        0 <= b <= y,
        x >= 0,
    ensures
        -(x * y) <= a * b <= x * y,
{
    assert(-(x * y) <= a * b <= x * y) by (nonlinear_arith)
        requires
            -x < a < x,
            0 <= b <= y,
            x >= 0,
    ;
}

/// Whether `d1` and `d2` differ by more than `10^-6`.
pub fn differs(d1: &Decimal, d2: &Decimal) -> (b: bool)
    ensures
        b == differ(*d1, *d2),
{
    let m1 = d1.mantissa();
    let s1 = d1.scale();
    let m2 = d2.mantissa();
    let s2 = d2.scale();
    let p1 = pow10_exec(s1);
    let p2 = pow10_exec(s2);
    proof {
        lemma_pow10_small(s1 as nat);
        lemma_pow10_small(s2 as nat);
        lemma_abs_mul_bound(m1 as int, p2 as int, 1_000_000_000_000, 1_000_000);
        lemma_abs_mul_bound(m2 as int, p1 as int, 1_000_000_000_000, 1_000_000);
        assert(0 <= p1 * p2 <= 1_000_000 * 1_000_000) by (nonlinear_arith)
            requires
                1 <= p1 <= 1_000_000,
                1 <= p2 <= 1_000_000,
        ;
    }
    let a: i128 = (m1 as i128) * (p2 as i128);
    let c: i128 = (m2 as i128) * (p1 as i128);
    let diff: i128 = a - c;
    let l: i128 = if diff < 0 {
        -diff
    } else {
        diff
    };
    let pp: i128 = (p1 as i128) * (p2 as i128);
    l * 1_000_000 > pp
}

/// An ASCII digit.
pub open spec fn is_digit(c: char) -> bool {
    '0' <= c <= '9'
}

/// The value of an ASCII digit.
pub open spec fn digit_val(c: char) -> nat {
    (c as int - '0' as int) as nat
}

/// Every character of `s` is an ASCII digit.
pub open spec fn all_digits(s: Seq<char>) -> bool {
    forall|i: int| 0 <= i < s.len() ==> is_digit(#[trigger] s[i])
}

/// The value of the digit string `s` appended to the value `v0`.
pub open spec fn fold_digits(v0: nat, s: Seq<char>) -> nat
    decreases s.len(),
{
    if s.len() == 0 {
        v0
    } else {
        fold_digits(v0, s.drop_last()) * 10 + digit_val(s.last())
    }
}

/// The value of the digit string `s`.
pub open spec fn digits_value(s: Seq<char>) -> nat {
    fold_digits(0, s)
}

/// `+` or `-`.
pub open spec fn is_sign(c: char) -> bool {
    c == '+' || c == '-'
}

/// `e` or `E`.
pub open spec fn exp_marker() -> spec_fn(char) -> bool {
    |c: char| c == 'e' || c == 'E'
}

/// `s` without a leading sign.
pub open spec fn unsigned_body(s: Seq<char>) -> Seq<char> {
    if s.len() > 0 && is_sign(s[0]) {
        s.drop_first()
    } else {
        s
    }
}

/// `s` starts with `-`.
pub open spec fn negative(s: Seq<char>) -> bool {
    s.len() > 0 && s[0] == '-'
}

/// The decimal `(mantissa, scale)` equal to `(-1)^neg * numer * 10^k`, when
/// it lies in range.
pub open spec fn decimal_of(neg: bool, numer: nat, k: int) -> Option<(int, nat)> {
    if numer == 0 {
        Some((0, 0))
    } else if k >= 0 {
        let m = numer * pow10(k as nat);
        if m < mantissa_limit() {
            Some(
                (
                    if neg {
                        -m
                    } else {
                        m as int
                    },
                    0,
                ),
            )
        } else {
            None
        }
    } else if -k <= max_scale() && numer < mantissa_limit() {
        Some(
            (
                if neg {
                    -numer
                } else {
                    numer as int
                },
                (-k) as nat,
            ),
        )
    } else {
        None
    }
}

/// Position of the exponent marker in an unsigned literal body (its length
/// when there is none).
pub open spec fn exp_index(b: Seq<char>) -> int {
    first_index(b, exp_marker())
}

/// The mantissa text of an unsigned literal body (before the exponent).
pub open spec fn mantissa_text(b: Seq<char>) -> Seq<char> {
    b.take(exp_index(b))
}

/// Position of the decimal point in the mantissa text (its length when none).
pub open spec fn dot_index(b: Seq<char>) -> int {
    first_index(mantissa_text(b), crate::text::is_char('.'))
}

/// The digits before the point.
pub open spec fn int_digits(b: Seq<char>) -> Seq<char> {
    mantissa_text(b).take(dot_index(b))
}

/// The digits after the point (empty when there is no point).
pub open spec fn frac_digits(b: Seq<char>) -> Seq<char> {
    if dot_index(b) < mantissa_text(b).len() {
        mantissa_text(b).skip(dot_index(b) + 1)
    } else {
        Seq::empty()
    }
}

/// The mantissa is `D+ | D+ '.' D* | D* '.' D+`.
pub open spec fn mantissa_ok(b: Seq<char>) -> bool {
    all_digits(int_digits(b)) && all_digits(frac_digits(b)) && int_digits(b).len() + frac_digits(
        b,
    ).len() > 0
}

/// The exponent of an unsigned literal body: 0 without a marker, the signed
/// digit value after it otherwise, `None` when malformed.
pub open spec fn exp_value(b: Seq<char>) -> Option<int> {
    let ei = exp_index(b);
    let ex = b.skip(ei + 1);
    let ed = unsigned_body(ex);
    if ei == b.len() {
        Some(0)
    } else if ed.len() > 0 && all_digits(ed) {
        if negative(ex) {
            Some(-digits_value(ed))
        } else {
            Some(digits_value(ed) as int)
        }
    } else {
        None
    }
}

/// A number literal split into sign, digit value and decimal exponent,
/// following the grammar of `f64::from_str` (without `inf`/`nan`):
/// `[+-]? (D+ | D+ '.' D* | D* '.' D+) ([eE] [+-]? D+)?`.
pub open spec fn number_parts(s: Seq<char>) -> Option<(bool, nat, int)> {
    let b = unsigned_body(s);
    if mantissa_ok(b) && exp_value(b) is Some {
        Some(
            (
                negative(s),
                digits_value(int_digits(b) + frac_digits(b)),
                exp_value(b)->0 - frac_digits(b).len(),
            ),
        )
    } else {
        None
    }
}

/// The `(mantissa, scale)` that the literal `s` denotes, if it parses.
pub open spec fn parse_number_spec(s: Seq<char>) -> Option<(int, nat)> {
    match number_parts(s) {
        None => None,
        Some(p) => decimal_of(p.0, p.1, p.2),
    }
}

/// `d` has the given `(mantissa, scale)`.
pub open spec fn is_decimal(d: Decimal, p: (int, nat)) -> bool {
    d.m() == p.0 && d.s() == p.1
}

/// `r` is what parsing `s` gives.
pub open spec fn parses_to(s: Seq<char>, r: Option<Decimal>) -> bool {
    &&& r is Some <==> parse_number_spec(s) is Some
    &&& r matches Some(d) ==> is_decimal(d, parse_number_spec(s)->0)
}

pub proof fn lemma_fold_concat(v0: nat, a: Seq<char>, b: Seq<char>)
    ensures
        fold_digits(fold_digits(v0, a), b) == fold_digits(v0, a + b),
    decreases b.len(),
{
    if b.len() == 0 {
        assert(a + b == a);
    } else {
        lemma_fold_concat(v0, a, b.drop_last());
        assert((a + b).drop_last() == a + b.drop_last());
    }
}

pub(crate) proof fn lemma_pow10_ge(n: nat)
    ensures
        n >= 12 ==> pow10(n) >= 1_000_000_000_000,
        pow10(n) >= 1,
    decreases n,
{
    if n > 0 {
        lemma_pow10_ge((n - 1) as nat);
        assert(pow10(n) == 10 * pow10((n - 1) as nat));
        if n == 12 {
            lemma_pow10_small(12);
        }
    }
}

/// The smaller of two naturals.
pub open spec fn min_nat(a: nat, b: nat) -> nat {
    if a < b {
        a
    } else {
        b
    }
}

/// Folds the digits `s[lo..hi]` onto `start`, saturating at `cap`.
fn fold_digits_sat(s: &Vec<char>, lo: usize, hi: usize, start: u128, cap: u128, Ghost(v0): Ghost<nat>) -> (r: u128)
    requires
        lo <= hi <= s@.len(),
        all_digits(s@.subrange(lo as int, hi as int)),
        1 <= cap <= 1_267_650_600_228_229_401_496_703_205_376u128,
        start == min_nat(v0, cap as nat),
    ensures
        r == min_nat(fold_digits(v0, s@.subrange(lo as int, hi as int)), cap as nat),
{
    let mut acc = start;
    let mut i = lo;
    while i < hi
        invariant
            lo <= i <= hi <= s@.len(),
            all_digits(s@.subrange(lo as int, hi as int)),
            1 <= cap <= 1_267_650_600_228_229_401_496_703_205_376u128,
            acc == min_nat(fold_digits(v0, s@.subrange(lo as int, i as int)), cap as nat),
        decreases hi - i,
    {
        let c = s[i];
        assert(s@.subrange(lo as int, hi as int)[i - lo] == c);
        let d = (c as u32 - '0' as u32) as u128;
        let ghost prev = fold_digits(v0, s@.subrange(lo as int, i as int));
        assert(s@.subrange(lo as int, i + 1).drop_last() == s@.subrange(lo as int, i as int));
        if acc >= cap {
            acc = cap;
        } else {
            let next = acc * 10 + d;
            acc = if next < cap {
                next
            } else {
                cap
            };
        }
        i = i + 1;
    }
    acc
}

fn all_digits_range(s: &Vec<char>, lo: usize, hi: usize) -> (b: bool)
    requires
        lo <= hi <= s@.len(),
    ensures
        b == all_digits(s@.subrange(lo as int, hi as int)),
{
    let mut i = lo;
    while i < hi
        invariant
            lo <= i <= hi <= s@.len(),
            forall|k: int| lo <= k < i ==> is_digit(#[trigger] s@[k]),
        decreases hi - i,
    {
        if !('0' <= s[i] && s[i] <= '9') {
            assert(!is_digit(s@.subrange(lo as int, hi as int)[i - lo]));
            return false;
        }
        i = i + 1;
    }
    assert forall|k: int| 0 <= k < hi - lo implies is_digit(#[trigger] s@.subrange(lo as int, hi as int)[k]) by {
        assert(s@.subrange(lo as int, hi as int)[k] == s@[lo + k]);
    }
    true
}

fn find_exp_marker(s: &Vec<char>, lo: usize, hi: usize) -> (r: usize)
    requires
        lo <= hi <= s@.len(),
    ensures
        r <= hi - lo,
        r == first_index(s@.subrange(lo as int, hi as int), exp_marker()),
{
    let mut i = lo;
    while i < hi && s[i] != 'e' && s[i] != 'E'
        invariant
            lo <= i <= hi <= s@.len(),
            forall|k: int| lo <= k < i ==> !exp_marker()(#[trigger] s@[k]),
        decreases hi - i,
    {
        i = i + 1;
    }
    proof {
        let sub = s@.subrange(lo as int, hi as int);
        assert forall|k: int| 0 <= k < i - lo implies !exp_marker()(#[trigger] sub[k]) by {
            assert(sub[k] == s@[lo + k]);
        }
        lemma_first_index(sub, exp_marker(), i - lo);
    }
    i - lo
}

/// Cap used while accumulating exponent digits: `2^100`.
pub open spec fn exp_cap() -> nat {
    1_267_650_600_228_229_401_496_703_205_376
}

/// Parses the exponent of the unsigned body `s[b..hi]` whose marker index
/// (relative to `b`) is `ei`; returns its sign and its magnitude saturated
/// at `2^100`.
fn parse_exponent(s: &Vec<char>, b: usize, hi: usize, ei: usize) -> (r: Option<(bool, u128)>)
    requires
        b <= hi <= s@.len(),
        ei == exp_index(s@.subrange(b as int, hi as int)),
        ei <= hi - b,
    ensures
        r is Some <==> exp_value(s@.subrange(b as int, hi as int)) is Some,
        r matches Some(p) ==> {
            let e = exp_value(s@.subrange(b as int, hi as int))->0;
            &&& p.0 ==> e <= 0
            &&& !p.0 ==> e >= 0
            &&& p.1 == min_nat((if e < 0 { -e } else { e }) as nat, exp_cap())
        },
{
    let ghost body = s@.subrange(b as int, hi as int);
    let me = b + ei;
    if me >= hi {
        return Some((false, 0));
    }
    let ex = me + 1;
    let exp_neg = ex < hi && s[ex] == '-';
    let ed = if ex < hi && (s[ex] == '+' || s[ex] == '-') {
        ex + 1
    } else {
        ex
    };
    assert(body.skip(ei + 1) == s@.subrange(ex as int, hi as int));
    assert(unsigned_body(body.skip(ei + 1)) == s@.subrange(ed as int, hi as int));
    if !(ed < hi && all_digits_range(s, ed, hi)) {
        return None;
    }
    let e_sat = fold_digits_sat(s, ed, hi, 0, 1_267_650_600_228_229_401_496_703_205_376u128, Ghost(0));
    Some((exp_neg, e_sat))
}

/// Parses the number literal `s[lo..hi]` (see [`number_parts`]).
#[verifier::rlimit(50)]
pub fn parse_number(s: &Vec<char>, lo: usize, hi: usize) -> (r: Option<Decimal>)
    requires
        lo <= hi <= s@.len(),
    ensures
        parses_to(s@.subrange(lo as int, hi as int), r),
{
    let ghost sub = s@.subrange(lo as int, hi as int);
    let neg = lo < hi && s[lo] == '-';
    let b = if lo < hi && (s[lo] == '+' || s[lo] == '-') {
        lo + 1
    } else {
        lo
    };
    let ghost body = unsigned_body(sub);
    assert(body == s@.subrange(b as int, hi as int));
    let ei = find_exp_marker(s, b, hi);
    let me = b + ei;
    assert(mantissa_text(body) == s@.subrange(b as int, me as int));
    let di = find_char(s, b, me, '.');
    let ip_end = b + di;
    let (fp_start, fp_end) = if di < ei {
        (b + di + 1, me)
    } else {
        (me, me)
    };
    let ghost ip = int_digits(body);
    let ghost fp = frac_digits(body);
    assert(ip == s@.subrange(b as int, ip_end as int));
    assert(fp == s@.subrange(fp_start as int, fp_end as int));
    let ip_ok = all_digits_range(s, b, ip_end);
    let fp_ok = all_digits_range(s, fp_start, fp_end);
    if !(ip_ok && fp_ok && (ip_end - b) + (fp_end - fp_start) > 0) {
        return None;
    }
    let (exp_neg, e_sat) = match parse_exponent(s, b, hi, ei) {
        Some(p) => p,
        None => {
            return None;
        },
    };
    let ghost numer = digits_value(ip + fp);
    let n1 = fold_digits_sat(s, b, ip_end, 0, 1_000_000_000_000u128, Ghost(0));
    let n2 = fold_digits_sat(s, fp_start, fp_end, n1, 1_000_000_000_000u128, Ghost(digits_value(ip)));
    proof {
        lemma_fold_concat(0, ip, fp);
    }
    let f = (fp_end - fp_start) as i128;
    let e_signed: i128 = if exp_neg {
        -(e_sat as i128)
    } else {
        e_sat as i128
    };
    let k = e_signed - f;
    let ghost k_true: int = exp_value(body)->0 - fp.len();
    assert(number_parts(sub) == Some((neg, numer, k_true)));
    assert(f == fp.len());
    assert(f <= usize::MAX);
    proof {
        let e = exp_value(body)->0;
        if e >= exp_cap() {
            assert(e_sat == exp_cap());
        } else if e <= -exp_cap() {
            assert(e_sat == exp_cap());
        } else {
            assert(e_signed == e);
        }
    }
    decimal_from(neg, n2, k, Ghost(numer), Ghost(k_true))
}

fn decimal_from(neg: bool, n: u128, k: i128, Ghost(numer): Ghost<nat>, Ghost(k_true): Ghost<int>) -> (r: Option<Decimal>)
    requires
        n == min_nat(numer, 1_000_000_000_000),
        k == k_true || numer == 0 || ((k >= 1_000_000 && k_true >= 1_000_000 || k <= -1_000_000
            && k_true <= -1_000_000)),
    ensures
        r is Some <==> decimal_of(neg, numer, k_true) is Some,
        r matches Some(d) ==> is_decimal(d, decimal_of(neg, numer, k_true)->0),
{
    proof {
        lemma_pow10_ge(k_true as nat);
    }
    if n == 0 {
        return Some(Decimal { mantissa: 0, scale: 0 });
    }
    if k >= 0 {
        if k >= 12 {
            proof {
                lemma_pow10_ge(k_true as nat);
                assert(numer * pow10(k_true as nat) >= pow10(k_true as nat)) by (nonlinear_arith)
                    requires
                        numer >= 1,
                ;
            }
            return None;
        }
        let p = pow10_exec(k as u32);
        assert(n * p <= 1_000_000_000_000 * 1_000_000_000_000) by (nonlinear_arith)
            requires
                n <= 1_000_000_000_000,
                p <= 1_000_000_000_000,
        ;
        let m = n * (p as u128);
        if m < 1_000_000_000_000 {
            proof {
                if numer >= 1_000_000_000_000 {
                    assert(n * p >= n) by (nonlinear_arith)
                        requires
                            p >= 1,
                    ;
                }
                assert(n == numer);
                assert(k == k_true);
            }
            let mi = m as i64;
            return Some(Decimal { mantissa: if neg { -mi } else { mi }, scale: 0 });
        } else {
            proof {
                if numer >= 1_000_000_000_000 {
                    assert(numer * pow10(k_true as nat) >= numer) by (nonlinear_arith)
                        requires
                            pow10(k_true as nat) >= 1,
                    ;
                }
            }
            return None;
        }
    }
    if k < -6 || n >= 1_000_000_000_000 {
        return None;
    }
    let mi = n as i64;
    Some(Decimal { mantissa: if neg { -mi } else { mi }, scale: (-k) as u32 })
}

/// The low `n` decimal digits of `v`, zero-padded to exactly `n` places.
pub open spec fn padded_digits(v: nat, n: nat) -> Seq<char>
    decreases n,
{
    if n == 0 {
        Seq::empty()
    } else {
        padded_digits(v / 10, (n - 1) as nat).push(digit_char(v % 10))
    }
}

/// `(v, n)` with trailing zero digits dropped from the `n`-place fraction `v`.
pub open spec fn strip_zeros(v: nat, n: nat) -> (nat, nat)
    decreases n,
{
    if n > 0 && v % 10 == 0 {
        strip_zeros(v / 10, (n - 1) as nat)
    } else {
        (v, n)
    }
}

/// The text of `(-1)^neg * mag / 10^scale`: sign (only for a non-zero
/// value), integer digits, and the fraction digits without trailing zeros
/// after a point (no point for an integral value).
pub open spec fn render_scaled(neg: bool, mag: nat, scale: nat) -> Seq<char> {
    let ip = mag / pow10(scale);
    let fp = mag % pow10(scale);
    let st = strip_zeros(fp, scale);
    (if neg && mag != 0 {
        seq!['-']
    } else {
        Seq::empty()
    }) + nat_to_decimal(ip) + (if fp == 0 {
        Seq::empty()
    } else {
        seq!['.'] + padded_digits(st.0, st.1)
    })
}

/// The text of a decimal.
pub open spec fn decimal_text(d: Decimal) -> Seq<char> {
    render_scaled(d.m() < 0, (if d.m() < 0 { -d.m() } else { d.m() }) as nat, d.s())
}

pub(crate) fn push_padded(dst: &mut Vec<char>, v: u128, n: u32)
    ensures
        final(dst)@ == old(dst)@ + padded_digits(v as nat, n as nat),
    decreases n,
{
    if n > 0 {
        push_padded(dst, v / 10, n - 1);
        let d = (v % 10) as u64;
        let c = if d == 0 {
            '0'
        } else if d == 1 {
            '1'
        } else if d == 2 {
            '2'
        } else if d == 3 {
            '3'
        } else if d == 4 {
            '4'
        } else if d == 5 {
            '5'
        } else if d == 6 {
            '6'
        } else if d == 7 {
            '7'
        } else if d == 8 {
            '8'
        } else {
            '9'
        };
        dst.push(c);
    }
}

/// Appends the text of `(-1)^neg * mag / 10^scale` to `dst`.
pub fn push_scaled(dst: &mut Vec<char>, neg: bool, mag: u128, scale: u32)
    requires
        scale <= 12,
    ensures
        final(dst)@ == old(dst)@ + render_scaled(neg, mag as nat, scale as nat),
{
    let p = pow10_exec(scale) as u128;
    proof {
        lemma_pow10_ge(scale as nat);
    }
    let ip = mag / p;
    let fp = mag % p;
    let ghost start = dst@;
    if neg && mag != 0 {
        dst.push('-');
    }
    push_decimal(dst, ip);
    if fp != 0 {
        dst.push('.');
        let mut v = fp;
        let mut n = scale;
        while n > 0 && v % 10 == 0
            invariant
                strip_zeros(v as nat, n as nat) == strip_zeros(fp as nat, scale as nat),
            decreases n,
        {
            v = v / 10;
            n = n - 1;
        }
        push_padded(dst, v, n);
    }
    assert(dst@ == start + render_scaled(neg, mag as nat, scale as nat));
}

/// Appends the text of `d` to `dst`.
pub fn push_decimal_text(dst: &mut Vec<char>, d: &Decimal)
    ensures
        final(dst)@ == old(dst)@ + decimal_text(*d),
{
    let m = d.mantissa();
    let sc = d.scale();
    let mag: u128 = if m < 0 {
        (-(m as i128)) as u128
    } else {
        m as u128
    };
    push_scaled(dst, m < 0, mag, sc);
}

/// Absolute value.
pub open spec fn abs(x: int) -> int {
    if x < 0 {
        -x
    } else {
        x
    }
}

/// The exact value of `a op b` as `numerator / denominator` with a positive
/// denominator (for `/`, `b` must be non-zero).
pub open spec fn expected_ratio(op: char, a: Decimal, b: Decimal) -> (int, int) {
    let pa = pow10(a.s()) as int;
    let pb = pow10(b.s()) as int;
    if op == '+' {
        (a.m() * pb + b.m() * pa, pa * pb)
    } else if op == '-' {
        (a.m() * pb - b.m() * pa, pa * pb)
    } else if op == '*' {
        (a.m() * b.m(), pa * pb)
    } else {
        (if b.m() < 0 {
            -(a.m() * pb)
        } else {
            a.m() * pb
        }, pa * abs(b.m()))
    }
}

/// `a op b` differs from `r` by more than `10^-6`.
pub open spec fn mismatch(op: char, a: Decimal, b: Decimal, r: Decimal) -> bool {
    let e = expected_ratio(op, a, b);
    let pr = pow10(r.s()) as int;
    abs(e.0 * pr - r.m() * e.1) * 1_000_000 > e.1 * pr
}

/// Truncating integer division (rounds toward zero).
pub open spec fn trunc_div(n: int, d: int) -> int {
    let q = abs(n) / abs(d);
    if (n < 0) != (d < 0) {
        -q
    } else {
        q
    }
}

/// The text of `a op b`: exact for `+`, `-` and `*`; for `/`, the quotient
/// truncated to twelve digits after the point.
pub open spec fn expected_text(op: char, a: Decimal, b: Decimal) -> Seq<char> {
    let pa = pow10(a.s()) as int;
    let pb = pow10(b.s()) as int;
    let sc = if a.s() > b.s() {
        a.s()
    } else {
        b.s()
    };
    let ua = a.m() * pow10((sc - a.s()) as nat);
    let ub = b.m() * pow10((sc - b.s()) as nat);
    let v: (int, nat) = if op == '+' {
        (ua + ub, sc)
    } else if op == '-' {
        (ua - ub, sc)
    } else if op == '*' {
        (a.m() * b.m(), a.s() + b.s())
    } else {
        (trunc_div(a.m() * pb * 1_000_000_000_000, pa * b.m()), 12)
    };
    render_scaled(v.0 < 0, abs(v.0) as nat, v.1)
}

proof fn lemma_bounds(x: int, y: int, bx: int, by: int)
    requires
        abs(x) <= bx,
        abs(y) <= by,
        bx >= 0,
        by >= 0,
    ensures
        abs(x * y) <= bx * by,
{
    assert(abs(x * y) <= bx * by) by (nonlinear_arith)
        requires
            abs(x) <= bx,
            abs(y) <= by,
            bx >= 0,
            by >= 0,
    ;
}

/// Whether `a op b` differs from `r` by more than `10^-6` (`op` one of
/// `+ - * /`; for `/`, `b` non-zero).
pub fn mismatches(op: char, a: &Decimal, b: &Decimal, r: &Decimal) -> (res: bool)
    requires
        op == '+' || op == '-' || op == '*' || (op == '/' && b.m() != 0),
    ensures
        res == mismatch(op, *a, *b, *r),
{
    let ma = a.mantissa() as i128;
    let mb = b.mantissa() as i128;
    let mr = r.mantissa() as i128;
    let pa = pow10_exec(a.scale()) as i128;
    let pb = pow10_exec(b.scale()) as i128;
    let pr = pow10_exec(r.scale()) as i128;
    proof {
        lemma_pow10_small(a.s());
        lemma_pow10_small(b.s());
        lemma_pow10_small(r.s());
        lemma_bounds(ma as int, pb as int, 1_000_000_000_000, 1_000_000);
        lemma_bounds(mb as int, pa as int, 1_000_000_000_000, 1_000_000);
        lemma_bounds(ma as int, mb as int, 1_000_000_000_000, 1_000_000_000_000);
        lemma_bounds(pa as int, pb as int, 1_000_000, 1_000_000);
        lemma_bounds(pa as int, mb as int, 1_000_000, 1_000_000_000_000);
    }
    let (en, ed): (i128, i128) = if op == '+' {
        (ma * pb + mb * pa, pa * pb)
    } else if op == '-' {
        (ma * pb - mb * pa, pa * pb)
    } else if op == '*' {
        (ma * mb, pa * pb)
    } else {
        let amb = if mb < 0 {
            -mb
        } else {
            mb
        };
        (if mb < 0 {
            -(ma * pb)
        } else {
            ma * pb
        }, pa * amb)
    };
    assert((en as int, ed as int) == expected_ratio(op, *a, *b));
    proof {
        lemma_bounds(en as int, pr as int, 1_000_000_000_000_000_000_000_000, 1_000_000);
        lemma_bounds(mr as int, ed as int, 1_000_000_000_000, 1_000_000_000_000_000_000);
        lemma_bounds(ed as int, pr as int, 1_000_000_000_000_000_000, 1_000_000);
    }
    let lhs = en * pr - mr * ed;
    let l = if lhs < 0 {
        -lhs
    } else {
        lhs
    };
    l * 1_000_000 > ed * pr
}

/// Appends the text of `a op b` (see [`expected_text`]) to `dst`.
pub fn push_expected_text(dst: &mut Vec<char>, op: char, a: &Decimal, b: &Decimal)
    requires
        op == '+' || op == '-' || op == '*' || (op == '/' && b.m() != 0),
    ensures
        final(dst)@ == old(dst)@ + expected_text(op, *a, *b),
{
    let ma = a.mantissa() as i128;
    let mb = b.mantissa() as i128;
    let sa = a.scale();
    let sb = b.scale();
    let pa = pow10_exec(sa) as i128;
    let pb = pow10_exec(sb) as i128;
    let sc = if sa > sb {
        sa
    } else {
        sb
    };
    let qa = pow10_exec(sc - sa) as i128;
    let qb = pow10_exec(sc - sb) as i128;
    proof {
        lemma_pow10_small(a.s());
        lemma_pow10_small(b.s());
        lemma_pow10_small((sc - sa) as nat);
        lemma_pow10_small((sc - sb) as nat);
        lemma_bounds(ma as int, qa as int, 1_000_000_000_000, 1_000_000);
        lemma_bounds(mb as int, qb as int, 1_000_000_000_000, 1_000_000);
        lemma_bounds(ma as int, mb as int, 1_000_000_000_000, 1_000_000_000_000);
        lemma_bounds(ma as int, pb as int, 1_000_000_000_000, 1_000_000);
        lemma_bounds(pa as int, mb as int, 1_000_000, 1_000_000_000_000);
        lemma_bounds(ma * pb, 1_000_000_000_000, 1_000_000_000_000_000_000, 1_000_000_000_000);
    }
    let (v, scale): (i128, u32) = if op == '+' {
        (ma * qa + mb * qb, sc)
    } else if op == '-' {
        (ma * qa - mb * qb, sc)
    } else if op == '*' {
        (ma * mb, sa + sb)
    } else {
        let n = ma * pb * 1_000_000_000_000;
        let d = pa * mb;
        let an: u128 = if n < 0 {
            (-n) as u128
        } else {
            n as u128
        };
        let ad: u128 = if d < 0 {
            (-d) as u128
        } else {
            d as u128
        };
        let q = (an / ad) as i128;
        (if (n < 0) != (d < 0) {
            -q
        } else {
            q
        }, 12)
    };
    let mag: u128 = if v < 0 {
        (-v) as u128
    } else {
        v as u128
    };
    push_scaled(dst, v < 0, mag, scale);
}

/// `d1` and `d2` denote the same number.
pub open spec fn same_value(d1: Decimal, d2: Decimal) -> bool {
    d1.m() * pow10(d2.s()) == d2.m() * pow10(d1.s())
}

/// Whether `d1` and `d2` denote the same number.
pub fn equal_values(d1: &Decimal, d2: &Decimal) -> (b: bool)
    ensures
        b == same_value(*d1, *d2),
{
    let m1 = d1.mantissa() as i128;
    let m2 = d2.mantissa() as i128;
    let p1 = pow10_exec(d1.scale()) as i128;
    let p2 = pow10_exec(d2.scale()) as i128;
    proof {
        lemma_pow10_small(d1.s());
        lemma_pow10_small(d2.s());
        lemma_bounds(m1 as int, p2 as int, 1_000_000_000_000, 1_000_000);
        lemma_bounds(m2 as int, p1 as int, 1_000_000_000_000, 1_000_000);
    }
    m1 * p2 == m2 * p1
}

impl PartialEq for Decimal {
    fn eq(&self, other: &Self) -> (r: bool) {
        equal_values(self, other)
    }
}

impl PartialEqSpecImpl for Decimal {
    open spec fn obeys_eq_spec() -> bool {
        true
    }

    open spec fn eq_spec(&self, other: &Decimal) -> bool {
        same_value(*self, *other)
    }
}

/// The `(mantissa, scale)` pair of a decimal.
pub open spec fn dec_pair(d: Decimal) -> (int, nat) {
    (d.m(), d.s())
}

/// The text of a `(mantissa, scale)` pair.
pub open spec fn pair_text(p: (int, nat)) -> Seq<char> {
    render_scaled(p.0 < 0, abs(p.0) as nat, p.1)
}

/// The numbers `p1` and `p2` (as `(mantissa, scale)`) differ by more than
/// `10^-6`.
pub open spec fn pairs_differ(p1: (int, nat), p2: (int, nat)) -> bool {
    abs(p1.0 * pow10(p2.1) - p2.0 * pow10(p1.1)) * 1_000_000 > pow10(p1.1) * pow10(p2.1)
}

/// A checked difference is a checked sum read backwards: `a - b` is within
/// `10^-6` of `r` exactly when `r + b` is within `10^-6` of `a`.
pub proof fn lemma_difference_undoes_sum(a: Decimal, b: Decimal, r: Decimal)
    ensures
        mismatch('-', a, b, r) == mismatch('+', r, b, a),
{
    let pa = pow10(a.s()) as int;
    let pb = pow10(b.s()) as int;
    let pr = pow10(r.s()) as int;
    let (am, bm, rm) = (a.m(), b.m(), r.m());
    assert((am * pb - bm * pa) * pr - rm * (pa * pb) == -((rm * pb + bm * pr) * pa - am * (pr * pb)))
        by (nonlinear_arith);
    assert(pa * pb * pr == pr * pb * pa) by (nonlinear_arith);
}

/// An exact result is accepted: when `r` equals `a + b`, `a - b`, `a * b`
/// or `a / b` as a rational number (stated by cross-multiplying the
/// denominators `10^scale`), the step is no mismatch.
pub proof fn lemma_exact_results_accepted(a: Decimal, b: Decimal, r: Decimal)
    ensures
        a.m() * pow10(b.s()) * pow10(r.s()) + b.m() * pow10(a.s()) * pow10(r.s()) == r.m() * pow10(
            a.s(),
        ) * pow10(b.s()) ==> !mismatch('+', a, b, r),
        a.m() * pow10(b.s()) * pow10(r.s()) - b.m() * pow10(a.s()) * pow10(r.s()) == r.m() * pow10(
            a.s(),
        ) * pow10(b.s()) ==> !mismatch('-', a, b, r),
        a.m() * b.m() * pow10(r.s()) == r.m() * pow10(a.s()) * pow10(b.s()) ==> !mismatch('*', a, b, r),
        b.m() != 0 && a.m() * pow10(b.s()) * pow10(r.s()) == r.m() * b.m() * pow10(a.s()) ==> !mismatch(
            '/',
            a,
            b,
            r,
        ),
{
    lemma_pow10_ge(a.s());
    lemma_pow10_ge(b.s());
    lemma_pow10_ge(r.s());
    let pa = pow10(a.s()) as int;
    let pb = pow10(b.s()) as int;
    let pr = pow10(r.s()) as int;
    let (am, bm, rm) = (a.m(), b.m(), r.m());
    assert(pa * pb * pr > 0) by (nonlinear_arith)
        requires
            pa >= 1,
            pb >= 1,
            pr >= 1,
    ;
    assert((am * pb + bm * pa) * pr - rm * (pa * pb) == am * pb * pr + bm * pa * pr - rm * pa * pb)
        by (nonlinear_arith);
    assert((am * pb - bm * pa) * pr - rm * (pa * pb) == am * pb * pr - bm * pa * pr - rm * pa * pb)
        by (nonlinear_arith);
    assert((am * bm) * pr - rm * (pa * pb) == am * bm * pr - rm * pa * pb) by (nonlinear_arith);
    assert((am * pb) * pr - rm * (pa * bm) == am * pb * pr - rm * bm * pa) by (nonlinear_arith);
    assert(-(am * pb) * pr - rm * (pa * -bm) == -(am * pb * pr - rm * bm * pa)) by (nonlinear_arith);
    if bm != 0 {
        assert(pa * abs(bm) * pr > 0) by (nonlinear_arith)
            requires
                pa >= 1,
                pr >= 1,
                abs(bm) >= 1,
        ;
    }
}

/// A result off by a whole unit or more is rejected: when `r` differs from
/// `a + b` (or `a - b`) by at least 1, the step is a mismatch.
pub proof fn lemma_wrong_results_rejected(a: Decimal, b: Decimal, r: Decimal)
    ensures
        abs(a.m() * pow10(b.s()) * pow10(r.s()) + b.m() * pow10(a.s()) * pow10(r.s()) - r.m() * pow10(
            a.s(),
        ) * pow10(b.s())) >= pow10(a.s()) * pow10(b.s()) * pow10(r.s()) ==> mismatch('+', a, b, r),
        abs(a.m() * pow10(b.s()) * pow10(r.s()) - b.m() * pow10(a.s()) * pow10(r.s()) - r.m() * pow10(
            a.s(),
        ) * pow10(b.s())) >= pow10(a.s()) * pow10(b.s()) * pow10(r.s()) ==> mismatch('-', a, b, r),
{
    lemma_pow10_ge(a.s());
    lemma_pow10_ge(b.s());
    lemma_pow10_ge(r.s());
    let pa = pow10(a.s()) as int;
    let pb = pow10(b.s()) as int;
    let pr = pow10(r.s()) as int;
    let (am, bm, rm) = (a.m(), b.m(), r.m());
    let d = pa * pb * pr;
    assert(d > 0) by (nonlinear_arith)
        requires
            pa >= 1,
            pb >= 1,
            pr >= 1,
            d == pa * pb * pr,
    ;
    assert((pa * pb) * pr == d) by (nonlinear_arith)
        requires
            d == pa * pb * pr,
    ;
    assert((am * pb + bm * pa) * pr - rm * (pa * pb) == am * pb * pr + bm * pa * pr - rm * pa * pb)
        by (nonlinear_arith);
    assert((am * pb - bm * pa) * pr - rm * (pa * pb) == am * pb * pr - bm * pa * pr - rm * pa * pb)
        by (nonlinear_arith);
    let x1 = abs(am * pb * pr + bm * pa * pr - rm * pa * pb);
    let x2 = abs(am * pb * pr - bm * pa * pr - rm * pa * pb);
    assert(x1 >= d ==> x1 * 1_000_000 > d) by (nonlinear_arith)
        requires
            d > 0,
    ;
    assert(x2 >= d ==> x2 * 1_000_000 > d) by (nonlinear_arith)
        requires
            d > 0,
    ;
}

/// Sums and products do not depend on the order of their operands.
pub proof fn lemma_sum_product_commute(a: Decimal, b: Decimal, r: Decimal)
    ensures
        mismatch('+', a, b, r) == mismatch('+', b, a, r),
        mismatch('*', a, b, r) == mismatch('*', b, a, r),
{
    let pa = pow10(a.s()) as int;
    let pb = pow10(b.s()) as int;
    let pr = pow10(r.s()) as int;
    let (am, bm, rm) = (a.m(), b.m(), r.m());
    assert((am * pb + bm * pa) * pr - rm * (pa * pb) == (bm * pa + am * pb) * pr - rm * (pb * pa))
        by (nonlinear_arith);
    assert((am * bm) * pr - rm * (pa * pb) == (bm * am) * pr - rm * (pb * pa)) by (nonlinear_arith);
    assert(pa * pb * pr == pb * pa * pr) by (nonlinear_arith);
}

} // verus!
