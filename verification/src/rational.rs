//! Exact rational numbers, as used for media time, frame rates and time bases.
//!
//! The arithmetic itself is done by `num_rational`; this module holds the plain
//! values (numerator, denominator) the rest of the library reads, and states
//! every operation over mathematical integers.
use num_rational::Ratio;
use num_traits::{CheckedAdd, CheckedDiv, CheckedMul, CheckedSub};
use crate::media::generation::{divides, gcd_spec, lemma_gcd, times};
use vstd::prelude::*;

verus! {

/// A signed rational number `numer / denom` (a `Ratio<i64>`).
#[derive(Debug, Clone, Copy)]
pub struct Rational {
    pub numer: i64,
    pub denom: i64,
}

/// An unsigned rational number `numer / denom` (a `Ratio<u64>`).
#[derive(Debug, Clone, Copy)]
pub struct URational {
    pub numer: u64,
    pub denom: u64,
}

/// A fraction over mathematical integers: `(numerator, denominator)`.
pub type Frac = (int, int);

pub open spec fn frac_pos(p: Frac) -> bool {
    p.1 > 0
}

/// Value equality of two fractions with nonzero denominators.
pub open spec fn frac_eq(p: Frac, q: Frac) -> bool {
    p.0 * q.1 == q.0 * p.1
}

/// `p <= q`, for fractions with positive denominators.
pub open spec fn frac_le(p: Frac, q: Frac) -> bool {
    p.0 * q.1 <= q.0 * p.1
}

pub open spec fn frac_add(p: Frac, q: Frac) -> Frac {
    (p.0 * q.1 + q.0 * p.1, p.1 * q.1)
}

pub open spec fn frac_sub(p: Frac, q: Frac) -> Frac {
    (p.0 * q.1 - q.0 * p.1, p.1 * q.1)
}

pub open spec fn frac_mul(p: Frac, q: Frac) -> Frac {
    (p.0 * q.0, p.1 * q.1)
}

pub open spec fn frac_neg(p: Frac) -> Frac {
    (-p.0, p.1)
}

pub open spec fn frac_int(n: int) -> Frac {
    (n, 1)
}

/// Whether `n / d` has no common factor greater than one.
pub open spec fn coprime(n: int, d: int) -> bool {
    forall|k: int| k > 1 ==> !(#[trigger] (n % k) == 0 && d % k == 0)
}

impl Rational {
    /// The mathematical value.
    pub open spec fn frac(self) -> Frac {
        (self.numer as int, self.denom as int)
    }

    /// Positive denominator, as every value `num_rational` hands out has.
    pub open spec fn wf(self) -> bool {
        self.denom > 0
    }

    /// Lowest terms with a positive denominator.
    pub open spec fn canonical(self) -> bool {
        self.denom > 0 && coprime(self.numer as int, self.denom as int)
    }

    /// `Ratio::from_integer`: the integer `n` as `n / 1`.
    pub fn from_integer(n: i64) -> (r: Rational)
        ensures
            r.numer == n,
            r.denom == 1,
    {
        Rational { numer: n, denom: 1 }
    }
}

impl Rational {
    /// Whether `self` and `other` are the same number.
    pub fn same_value(&self, other: &Rational) -> (r: bool)
        requires
            self.wf(),
            other.wf(),
        ensures
            r == frac_eq(self.frac(), other.frac()),
    {
        rational_eq(*self, *other)
    }
}

impl URational {
    /// Whether `self` and `other` are the same number.
    pub fn same_value(&self, other: &URational) -> (r: bool)
        requires
            self.wf(),
            other.wf(),
        ensures
            r == frac_eq(self.frac(), other.frac()),
    {
        urational_eq(*self, *other)
    }
}

impl URational {
    pub open spec fn frac(self) -> Frac {
        (self.numer as int, self.denom as int)
    }

    pub open spec fn wf(self) -> bool {
        self.denom > 0
    }

    /// `Ratio::from_integer` for unsigned values.
    pub fn from_integer(n: u64) -> (r: URational)
        ensures
            r.numer == n,
            r.denom == 1,
    {
        URational { numer: n, denom: 1 }
    }
}


// === What `num_rational`'s checked operations return =======================

/// What `CheckedAdd::checked_add` of `num_rational` returns for
/// `an/ad + bn/bd` on `Ratio<i64>`: numerator and denominator, or `None`.
pub uninterp spec fn ratio_add(an: i64, ad: i64, bn: i64, bd: i64) -> Option<(i64, i64)>;

/// What `CheckedSub::checked_sub` returns for `an/ad - bn/bd` on `Ratio<i64>`.
pub uninterp spec fn ratio_sub(an: i64, ad: i64, bn: i64, bd: i64) -> Option<(i64, i64)>;

/// What `CheckedMul::checked_mul` returns for `an/ad * bn/bd` on `Ratio<i64>`.
pub uninterp spec fn ratio_mul(an: i64, ad: i64, bn: i64, bd: i64) -> Option<(i64, i64)>;

/// What `CheckedDiv::checked_div` returns for `(an/ad) / (bn/bd)` on `Ratio<i64>`.
pub uninterp spec fn ratio_div(an: i64, ad: i64, bn: i64, bd: i64) -> Option<(i64, i64)>;

/// What `CheckedAdd::checked_add` returns for `an/ad + bn/bd` on `Ratio<u64>`.
pub uninterp spec fn uratio_add(an: u64, ad: u64, bn: u64, bd: u64) -> Option<(u64, u64)>;

/// What `CheckedMul::checked_mul` returns for `an/ad * bn/bd` on `Ratio<u64>`.
pub uninterp spec fn uratio_mul(an: u64, ad: u64, bn: u64, bd: u64) -> Option<(u64, u64)>;

/// What `CheckedDiv::checked_div` returns for `(an/ad) / (bn/bd)` on `Ratio<u64>`.
pub uninterp spec fn uratio_div(an: u64, ad: u64, bn: u64, bd: u64) -> Option<(u64, u64)>;

pub open spec fn signed_of(p: Option<(i64, i64)>) -> Option<Rational> {
    match p {
        Some((n, d)) => Some(Rational { numer: n, denom: d }),
        None => None,
    }
}

pub open spec fn unsigned_of(p: Option<(u64, u64)>) -> Option<URational> {
    match p {
        Some((n, d)) => Some(URational { numer: n, denom: d }),
        None => None,
    }
}

/// The integer `n` as a ratio `n / 1`.
pub open spec fn integer(n: i64) -> Rational {
    Rational { numer: n, denom: 1 }
}

/// `a + b` as `num_rational` computes it; `None` when it overflows.
pub open spec fn sum_of(a: Rational, b: Rational) -> Option<Rational> {
    signed_of(ratio_add(a.numer, a.denom, b.numer, b.denom))
}

/// `a - b` as `num_rational` computes it; `None` when it overflows.
pub open spec fn difference_of(a: Rational, b: Rational) -> Option<Rational> {
    signed_of(ratio_sub(a.numer, a.denom, b.numer, b.denom))
}

/// `a * b` as `num_rational` computes it; `None` when it overflows.
pub open spec fn product_of(a: Rational, b: Rational) -> Option<Rational> {
    signed_of(ratio_mul(a.numer, a.denom, b.numer, b.denom))
}

/// `a / b` as `num_rational` computes it; `None` for a zero divisor or overflow.
pub open spec fn quotient_of(a: Rational, b: Rational) -> Option<Rational> {
    signed_of(ratio_div(a.numer, a.denom, b.numer, b.denom))
}

/// `a + b` on unsigned ratios as `num_rational` computes it.
pub open spec fn usum_of(a: URational, b: URational) -> Option<URational> {
    unsigned_of(uratio_add(a.numer, a.denom, b.numer, b.denom))
}

/// `a * b` on unsigned ratios as `num_rational` computes it.
pub open spec fn uproduct_of(a: URational, b: URational) -> Option<URational> {
    unsigned_of(uratio_mul(a.numer, a.denom, b.numer, b.denom))
}

/// `a / b` on unsigned ratios as `num_rational` computes it.
pub open spec fn uquotient_of(a: URational, b: URational) -> Option<URational> {
    unsigned_of(uratio_div(a.numer, a.denom, b.numer, b.denom))
}

/// `r` with numerator and denominator cast to `i64`.
pub open spec fn as_signed(r: URational) -> Rational {
    Rational { numer: r.numer as i64, denom: r.denom as i64 }
}

/// `Ratio<u64>` to `Ratio<i64>` by casting numerator and denominator (values
/// above `i64::MAX` wrap).
pub fn to_signed(r: URational) -> (s: Rational)
    ensures
        s == as_signed(r),
        s.numer == r.numer as i64,
        s.denom == r.denom as i64,
        r.numer <= i64::MAX ==> s.numer == r.numer,
        r.denom <= i64::MAX ==> s.denom == r.denom,
{
    Rational { numer: r.numer as i64, denom: r.denom as i64 }
}

/// `Ratio::<i64>::new`: reduces `numer / denom` to lowest terms.
///
/// Claims of `num_rational`: the result has a positive denominator, the same
/// value, and no common factor. `denom` must be positive (this library only
/// builds ratios with positive denominators).
#[verifier::external_body]
pub(crate) fn rational_new(numer: i64, denom: i64) -> (r: Rational)
    requires
        denom > 0,
    ensures
        r.canonical(),
        frac_eq(r.frac(), (numer as int, denom as int)),
{
    let v = Ratio::new(numer, denom);
    Rational { numer: *v.numer(), denom: *v.denom() }
}

/// `Ratio::<u64>::new`: reduces `numer / denom` to lowest terms.
///
/// Claims of `num_rational`: positive denominator, same value, lowest terms.
#[verifier::external_body]
pub(crate) fn urational_new(numer: u64, denom: u64) -> (r: URational)
    requires
        denom > 0,
    ensures
        r.wf(),
        coprime(r.numer as int, r.denom as int),
        frac_eq(r.frac(), (numer as int, denom as int)),
{
    let v = Ratio::new(numer, denom);
    URational { numer: *v.numer(), denom: *v.denom() }
}

/// `CheckedAdd::checked_add` on `Ratio<i64>`.
///
/// Claims: the result is what `ratio_add` names for these arguments; a
/// returned value is the exact sum in lowest terms. `None` comes from an
/// `i64` overflow in the crate's intermediate products, left to the name.
/// With numerators and denominators below `2^31` in size, every product and
/// the sum fit, and a value is returned.
#[verifier::external_body]
pub(crate) fn checked_add(a: Rational, b: Rational) -> (r: Option<Rational>)
    requires
        a.wf(),
        b.wf(),
    ensures
        -0x8000_0000 < a.numer < 0x8000_0000 && -0x8000_0000 < b.numer < 0x8000_0000 && a.denom < 0x8000_0000 && b.denom < 0x8000_0000 ==> r is Some,
        r == signed_of(ratio_add(a.numer, a.denom, b.numer, b.denom)),
        r matches Some(s) ==> s.canonical() && frac_eq(s.frac(), frac_add(a.frac(), b.frac())),
{
    let x = Ratio::new_raw(a.numer, a.denom);
    let y = Ratio::new_raw(b.numer, b.denom);
    match x.checked_add(&y) {
        Some(v) => Some(Rational { numer: *v.numer(), denom: *v.denom() }),
        None => None,
    }
}

/// `CheckedSub::checked_sub` on `Ratio<i64>`.
///
/// Claims: the result is what `ratio_sub` names; a returned value is the
/// exact difference in lowest terms; `None` on an `i64` overflow.
/// With numerators and denominators below `2^31` in size, every product and
/// the difference fit, and a value is returned.
#[verifier::external_body]
pub(crate) fn checked_sub(a: Rational, b: Rational) -> (r: Option<Rational>)
    requires
        a.wf(),
        b.wf(),
    ensures
        -0x8000_0000 < a.numer < 0x8000_0000 && -0x8000_0000 < b.numer < 0x8000_0000 && a.denom < 0x8000_0000 && b.denom < 0x8000_0000 ==> r is Some,
        r == signed_of(ratio_sub(a.numer, a.denom, b.numer, b.denom)),
        r matches Some(s) ==> s.canonical() && frac_eq(s.frac(), frac_sub(a.frac(), b.frac())),
{
    let x = Ratio::new_raw(a.numer, a.denom);
    let y = Ratio::new_raw(b.numer, b.denom);
    match x.checked_sub(&y) {
        Some(v) => Some(Rational { numer: *v.numer(), denom: *v.denom() }),
        None => None,
    }
}

/// `CheckedMul::checked_mul` on `Ratio<i64>`.
///
/// Claims: the result is what `ratio_mul` names; a returned value is the
/// exact product in lowest terms; `None` on an `i64` overflow.
/// With numerators and denominators below `2^31` in size, the products fit,
/// and a value is returned.
#[verifier::external_body]
pub(crate) fn checked_mul(a: Rational, b: Rational) -> (r: Option<Rational>)
    requires
        a.wf(),
        b.wf(),
    ensures
        -0x8000_0000 < a.numer < 0x8000_0000 && -0x8000_0000 < b.numer < 0x8000_0000 && a.denom < 0x8000_0000 && b.denom < 0x8000_0000 ==> r is Some,
        r == signed_of(ratio_mul(a.numer, a.denom, b.numer, b.denom)),
        r matches Some(s) ==> s.canonical() && frac_eq(s.frac(), frac_mul(a.frac(), b.frac())),
{
    let x = Ratio::new_raw(a.numer, a.denom);
    let y = Ratio::new_raw(b.numer, b.denom);
    match x.checked_mul(&y) {
        Some(v) => Some(Rational { numer: *v.numer(), denom: *v.denom() }),
        None => None,
    }
}

/// `CheckedDiv::checked_div` on `Ratio<i64>`.
///
/// Claims: the result is what `ratio_div` names; `None` when the divisor is
/// zero; a returned value is the exact quotient with a positive denominator;
/// `None` may also come from an `i64` overflow. Zero divided by a ratio with
/// numerator `i64::MIN` is left out: the crate's `gcd(0, i64::MIN)` panics.
/// With numerators and denominators below `2^31` in size and a nonzero
/// divisor, the products fit, and a value is returned.
#[verifier::external_body]
pub(crate) fn checked_div(a: Rational, b: Rational) -> (r: Option<Rational>)
    requires
        a.wf(),
        b.wf(),
        !(a.numer == 0 && b.numer == i64::MIN),
    ensures
        -0x8000_0000 < a.numer < 0x8000_0000 && -0x8000_0000 < b.numer < 0x8000_0000 && a.denom < 0x8000_0000 && b.denom < 0x8000_0000 && b.numer != 0 ==> r is Some,
        r == signed_of(ratio_div(a.numer, a.denom, b.numer, b.denom)),
        b.numer == 0 ==> r is None,
        r matches Some(s) ==> s.wf() && frac_eq(s.frac(), (a.numer * b.denom, a.denom * b.numer)),
{
    let x = Ratio::new_raw(a.numer, a.denom);
    let y = Ratio::new_raw(b.numer, b.denom);
    match x.checked_div(&y) {
        Some(v) => Some(Rational { numer: *v.numer(), denom: *v.denom() }),
        None => None,
    }
}

/// `CheckedMul::checked_mul` on `Ratio<u64>`.
///
/// Claims: the result is what `uratio_mul` names; a returned value is the
/// exact product in lowest terms; `None` on a `u64` overflow.
/// With numerators and denominators below `2^32`, the products fit, and a
/// value is returned.
#[verifier::external_body]
pub(crate) fn checked_umul(a: URational, b: URational) -> (r: Option<URational>)
    requires
        a.wf(),
        b.wf(),
    ensures
        a.numer < 0x1_0000_0000 && b.numer < 0x1_0000_0000 && a.denom < 0x1_0000_0000 && b.denom < 0x1_0000_0000 ==> r is Some,
        r == unsigned_of(uratio_mul(a.numer, a.denom, b.numer, b.denom)),
        r matches Some(s) ==> s.wf() && coprime(s.numer as int, s.denom as int) && frac_eq(
            s.frac(),
            frac_mul(a.frac(), b.frac()),
        ),
{
    let x = Ratio::new_raw(a.numer, a.denom);
    let y = Ratio::new_raw(b.numer, b.denom);
    match x.checked_mul(&y) {
        Some(v) => Some(URational { numer: *v.numer(), denom: *v.denom() }),
        None => None,
    }
}

/// `PartialOrd::le` on `Ratio<i64>`: value comparison.
///
/// Claims: for positive denominators the answer is `a <= b` as rationals.
#[verifier::external_body]
pub(crate) fn rational_le(a: Rational, b: Rational) -> (r: bool)
    requires
        a.wf(),
        b.wf(),
    ensures
        r == frac_le(a.frac(), b.frac()),
{
    Ratio::new_raw(a.numer, a.denom) <= Ratio::new_raw(b.numer, b.denom)
}

/// `PartialEq::eq` on `Ratio<i64>`: value equality.
///
/// Claims: for positive denominators the answer is value equality.
#[verifier::external_body]
pub(crate) fn rational_eq(a: Rational, b: Rational) -> (r: bool)
    requires
        a.wf(),
        b.wf(),
    ensures
        r == frac_eq(a.frac(), b.frac()),
{
    Ratio::new_raw(a.numer, a.denom) == Ratio::new_raw(b.numer, b.denom)
}

/// `CheckedAdd::checked_add` on `Ratio<u64>`.
///
/// Claims: the result is what `uratio_add` names; a returned value is the
/// exact sum in lowest terms; `None` on a `u64` overflow.
/// With numerators and denominators below `2^31`, every product and the sum
/// fit, and a value is returned.
#[verifier::external_body]
pub(crate) fn checked_uadd(a: URational, b: URational) -> (r: Option<URational>)
    requires
        a.wf(),
        b.wf(),
    ensures
        a.numer < 0x8000_0000 && b.numer < 0x8000_0000 && a.denom < 0x8000_0000 && b.denom < 0x8000_0000 ==> r is Some,
        r == unsigned_of(uratio_add(a.numer, a.denom, b.numer, b.denom)),
        r matches Some(s) ==> s.wf() && coprime(s.numer as int, s.denom as int) && frac_eq(
            s.frac(),
            frac_add(a.frac(), b.frac()),
        ),
{
    let x = Ratio::new_raw(a.numer, a.denom);
    let y = Ratio::new_raw(b.numer, b.denom);
    match x.checked_add(&y) {
        Some(v) => Some(URational { numer: *v.numer(), denom: *v.denom() }),
        None => None,
    }
}

/// `CheckedDiv::checked_div` on `Ratio<u64>`.
///
/// Claims: the result is what `uratio_div` names; `None` for a zero divisor;
/// a returned value is the exact quotient with a positive denominator; `None`
/// may also come from a `u64` overflow.
/// With numerators and denominators below `2^32` and a nonzero divisor, the
/// products fit, and a value is returned.
#[verifier::external_body]
pub(crate) fn checked_udiv(a: URational, b: URational) -> (r: Option<URational>)
    requires
        a.wf(),
        b.wf(),
    ensures
        a.numer < 0x1_0000_0000 && b.numer < 0x1_0000_0000 && a.denom < 0x1_0000_0000 && b.denom < 0x1_0000_0000 && b.numer != 0 ==> r is Some,
        r == unsigned_of(uratio_div(a.numer, a.denom, b.numer, b.denom)),
        b.numer == 0 ==> r is None,
        r matches Some(s) ==> s.wf() && frac_eq(s.frac(), (a.numer * b.denom, a.denom * b.numer)),
{
    let x = Ratio::new_raw(a.numer, a.denom);
    let y = Ratio::new_raw(b.numer, b.denom);
    match x.checked_div(&y) {
        Some(v) => Some(URational { numer: *v.numer(), denom: *v.denom() }),
        None => None,
    }
}

/// `PartialEq::eq` on `Ratio<u64>`: value equality.
///
/// Claims: for positive denominators the answer is value equality.
#[verifier::external_body]
pub(crate) fn urational_eq(a: URational, b: URational) -> (r: bool)
    requires
        a.wf(),
        b.wf(),
    ensures
        r == frac_eq(a.frac(), b.frac()),
{
    Ratio::new_raw(a.numer, a.denom) == Ratio::new_raw(b.numer, b.denom)
}

/// `Ratio::<u64>::recip`, for a nonzero value (it panics on zero).
///
/// Claims: the result is `denom / numer`.
#[verifier::external_body]
pub(crate) fn urecip(a: URational) -> (r: URational)
    requires
        a.numer != 0,
    ensures
        r.numer == a.denom,
        r.denom == a.numer,
{
    let v = Ratio::new_raw(a.numer, a.denom).recip();
    URational { numer: *v.numer(), denom: *v.denom() }
}

// === Lowest terms are unique ===============================================

proof fn lemma_gcd_scale(a: nat, b: nat, k: nat)
    requires
        k > 0,
    ensures
        gcd_spec(k * a, k * b) == k * gcd_spec(a, b),
    decreases b,
{
    if b == 0 {
        assert(k * b == 0) by (nonlinear_arith)
            requires
                b == 0,
        ;
    } else {
        let q = (a / b) as int;
        let r = (a % b) as int;
        vstd::arithmetic::div_mod::lemma_fundamental_div_mod(a as int, b as int);
        assert((k * a) as int == q * (k * b) + k * r && 0 <= k * r < k * b) by (nonlinear_arith)
            requires
                a as int == b * q + r,
                0 <= r < b,
                k > 0,
        ;
        vstd::arithmetic::div_mod::lemma_fundamental_div_mod_converse((k * a) as int, (k * b) as int, q, k * r);
        assert(k * b > 0) by (nonlinear_arith)
            requires
                k > 0,
                b > 0,
        ;
        lemma_gcd_scale(b, (a % b) as nat, k);
        assert((k * (a % b)) as nat == ((k * a) % (k * b)) as nat);
    }
}

proof fn lemma_divides_mod(d: int, n: int)
    requires
        d > 0,
        divides(d, n),
    ensures
        n % d == 0,
{
    let k = choose|k: int| n == #[trigger] times(d, k);
    assert(n == k * d) by (nonlinear_arith)
        requires
            n == d * k,
    ;
    vstd::arithmetic::div_mod::lemma_mod_multiples_basic(k, d);
}

/// `d` divides `m` when it divides `n * m` and shares no factor with `n`.
proof fn lemma_coprime_divides(n: nat, d: nat, m: nat)
    requires
        d > 0,
        coprime(n as int, d as int),
        divides(d as int, (n * m) as int),
    ensures
        divides(d as int, m as int),
{
    if m == 0 {
        assert(0 == times(d as int, 0));
    } else {
        let g = gcd_spec(n, d);
        lemma_gcd(n, d, 0);
        if g == 0 {
            let k = choose|k: int| d as int == #[trigger] times(g as int, k);
            assert(false);
        }
        if g > 1 {
            lemma_divides_mod(g as int, n as int);
            lemma_divides_mod(g as int, d as int);
            assert(!((n as int % g as int) == 0 && d as int % g as int == 0));
        }
        assert(g == 1);
        lemma_gcd_scale(n, d, m);
        assert(m * n == n * m && m * d == d * m) by (nonlinear_arith);
        assert(divides(d as int, (m * d) as int)) by {
            assert((m * d) as int == times(d as int, m as int)) by (nonlinear_arith);
        }
        lemma_gcd(m * n, m * d, d as int);
        assert(m * 1 == m);
    }
}

proof fn lemma_coprime_abs(n: int, d: int)
    requires
        coprime(n, d),
    ensures
        coprime(if n < 0 {
            -n
        } else {
            n
        }, d),
{
    let a = if n < 0 {
        -n
    } else {
        n
    };
    assert forall|k: int| k > 1 implies !(#[trigger] (a % k) == 0 && d % k == 0) by {
        if a % k == 0 && d % k == 0 && n < 0 {
            vstd::arithmetic::div_mod::lemma_fundamental_div_mod(a, k);
            assert(n == (-(a / k)) * k) by (nonlinear_arith)
                requires
                    a == k * (a / k) + 0,
                    n == -a,
            ;
            vstd::arithmetic::div_mod::lemma_mod_multiples_basic(-(a / k), k);
            assert(!((n % k) == 0 && d % k == 0));
        }
    }
}

/// A value has one form in lowest terms with a positive denominator: two
/// such ratios of equal value are the same ratio.
pub proof fn lemma_lowest_terms_unique(p: Rational, q: Rational)
    requires
        p.canonical(),
        q.canonical(),
        frac_eq(p.frac(), q.frac()),
    ensures
        p == q,
{
    let a = if p.numer < 0 {
        -p.numer
    } else {
        p.numer as int
    };
    let b = if q.numer < 0 {
        -q.numer
    } else {
        q.numer as int
    };
    let dp = p.denom as int;
    let dq = q.denom as int;
    assert(a * dq == b * dp) by (nonlinear_arith)
        requires
            p.numer * dq == q.numer * dp,
            dp > 0,
            dq > 0,
            a == (if p.numer < 0 {
                -p.numer
            } else {
                p.numer as int
            }),
            b == (if q.numer < 0 {
                -q.numer
            } else {
                q.numer as int
            }),
    ;
    lemma_coprime_abs(p.numer as int, dp);
    lemma_coprime_abs(q.numer as int, dq);
    assert(divides(dp, (a as nat * dq as nat) as int)) by {
        assert((a as nat * dq as nat) as int == times(dp, b)) by (nonlinear_arith)
            requires
                a * dq == b * dp,
                a >= 0,
                dq >= 0,
        ;
    }
    assert(divides(dq, (b as nat * dp as nat) as int)) by {
        assert((b as nat * dp as nat) as int == times(dq, a)) by (nonlinear_arith)
            requires
                a * dq == b * dp,
                b >= 0,
                dp >= 0,
        ;
    }
    lemma_coprime_divides(a as nat, dp as nat, dq as nat);
    lemma_coprime_divides(b as nat, dq as nat, dp as nat);
    let k1 = choose|k: int| dq == #[trigger] times(dp, k);
    let k2 = choose|k: int| dp == #[trigger] times(dq, k);
    assert(dp == dq) by (nonlinear_arith)
        requires
            dq == dp * k1,
            dp == dq * k2,
            dp > 0,
            dq > 0,
    ;
    assert(p.numer == q.numer) by (nonlinear_arith)
        requires
            p.numer * dq == q.numer * dp,
            dp == dq,
            dp > 0,
    ;
}

/// Some ratio in lowest terms with a positive denominator has the value
/// `n / d`.
proof fn lemma_lowest_terms_exist(n: int, d: int)
    requires
        i64::MIN <= n <= i64::MAX,
        0 < d <= i64::MAX,
    ensures
        exists|r: Rational| r.canonical() && #[trigger] frac_eq(r.frac(), (n, d)),
    decreases d,
{
    if coprime(n, d) {
        let r = Rational { numer: n as i64, denom: d as i64 };
        assert(r.canonical() && frac_eq(r.frac(), (n, d)));
    } else {
        let k = choose|k: int| k > 1 && (#[trigger] (n % k) == 0 && d % k == 0);
        let n2 = n / k;
        let d2 = d / k;
        vstd::arithmetic::div_mod::lemma_fundamental_div_mod(n, k);
        vstd::arithmetic::div_mod::lemma_fundamental_div_mod(d, k);
        assert(0 < d2 < d && i64::MIN <= n2 <= i64::MAX) by (nonlinear_arith)
            requires
                n == k * n2,
                d == k * d2,
                k > 1,
                0 < d <= i64::MAX,
                i64::MIN <= n <= i64::MAX,
        ;
        lemma_lowest_terms_exist(n2, d2);
        let r = choose|r: Rational| r.canonical() && #[trigger] frac_eq(r.frac(), (n2, d2));
        assert(frac_eq(r.frac(), (n, d))) by (nonlinear_arith)
            requires
                r.numer * d2 == n2 * r.denom,
                n == k * n2,
                d == k * d2,
        ;
    }
}

/// `t` in lowest terms with a positive denominator, as `num_rational` keeps
/// every ratio (for `t` with a positive denominator; see `lemma_lowest_terms`).
pub open spec fn lowest_terms(t: Rational) -> Rational {
    choose|r: Rational| r.canonical() && #[trigger] frac_eq(r.frac(), t.frac())
}

/// A ratio with a positive denominator has a form in lowest terms, of the
/// same value; ratios of equal value have the same one.
pub proof fn lemma_lowest_terms(a: Rational, b: Rational)
    requires
        a.wf(),
        b.wf(),
    ensures
        lowest_terms(a).canonical(),
        frac_eq(lowest_terms(a).frac(), a.frac()),
        a.canonical() ==> lowest_terms(a) == a,
        frac_eq(a.frac(), b.frac()) ==> lowest_terms(a) == lowest_terms(b),
{
    lemma_lowest_terms_exist(a.numer as int, a.denom as int);
    lemma_lowest_terms_exist(b.numer as int, b.denom as int);
    let la = lowest_terms(a);
    let lb = lowest_terms(b);
    if a.canonical() {
        lemma_lowest_terms_unique(la, a);
    }
    if frac_eq(a.frac(), b.frac()) {
        lemma_frac_eq_trans(la.frac(), a.frac(), b.frac());
        lemma_frac_eq_symm(lb.frac(), b.frac());
        lemma_frac_eq_trans(la.frac(), b.frac(), lb.frac());
        lemma_lowest_terms_unique(la, lb);
    }
}

// === Laws of fractions =====================================================

pub proof fn lemma_frac_eq_le(p: Frac, q: Frac, x: Frac, y: Frac)
    requires
        frac_pos(p),
        frac_pos(q),
        frac_pos(x),
        frac_pos(y),
        frac_eq(p, x),
        frac_eq(q, y),
    ensures
        frac_le(p, q) == frac_le(x, y),
{
    lemma_le_scaled(p, q, x, y);
}

proof fn lemma_le_scaled(p: Frac, q: Frac, x: Frac, y: Frac)
    requires
        p.1 > 0,
        q.1 > 0,
        x.1 > 0,
        y.1 > 0,
        p.0 * x.1 == x.0 * p.1,
        q.0 * y.1 == y.0 * q.1,
    ensures
        (p.0 * q.1 <= q.0 * p.1) == (x.0 * y.1 <= y.0 * x.1),
{
    // Multiply both sides of each comparison by the positive x.1 * y.1 (resp. p.1 * q.1).
    let k = x.1 * y.1;
    let m = p.1 * q.1;
    assert(k > 0) by (nonlinear_arith)
        requires
            x.1 > 0,
            y.1 > 0,
            k == x.1 * y.1,
    ;
    assert(m > 0) by (nonlinear_arith)
        requires
            p.1 > 0,
            q.1 > 0,
            m == p.1 * q.1,
    ;
    assert((p.0 * q.1) * k == (x.0 * y.1) * m) by (nonlinear_arith)
        requires
            p.0 * x.1 == x.0 * p.1,
            q.0 * y.1 == y.0 * q.1,
            k == x.1 * y.1,
            m == p.1 * q.1,
    ;
    assert((q.0 * p.1) * k == (y.0 * x.1) * m) by (nonlinear_arith)
        requires
            p.0 * x.1 == x.0 * p.1,
            q.0 * y.1 == y.0 * q.1,
            k == x.1 * y.1,
            m == p.1 * q.1,
    ;
    lemma_scale_le(p.0 * q.1, q.0 * p.1, x.0 * y.1, y.0 * x.1, k, m);
}

proof fn lemma_scale_le(a: int, b: int, c: int, d: int, k: int, m: int)
    requires
        k > 0,
        m > 0,
        a * k == c * m,
        b * k == d * m,
    ensures
        (a <= b) == (c <= d),
{
    if a <= b {
        assert(a * k <= b * k) by (nonlinear_arith)
            requires
                a <= b,
                k > 0,
        ;
        assert(c <= d) by (nonlinear_arith)
            requires
                c * m <= d * m,
                m > 0,
        ;
    } else {
        assert(a * k > b * k) by (nonlinear_arith)
            requires
                a > b,
                k > 0,
        ;
        assert(c > d) by (nonlinear_arith)
            requires
                c * m > d * m,
                m > 0,
        ;
    }
}

/// Equal fractions stay equal under addition, subtraction and multiplication.
pub proof fn lemma_frac_congruence(p: Frac, q: Frac, x: Frac, y: Frac)
    requires
        frac_pos(p),
        frac_pos(q),
        frac_pos(x),
        frac_pos(y),
        frac_eq(p, x),
        frac_eq(q, y),
    ensures
        frac_eq(frac_add(p, q), frac_add(x, y)),
        frac_eq(frac_sub(p, q), frac_sub(x, y)),
        frac_eq(frac_mul(p, q), frac_mul(x, y)),
{
    let a = p.0 * x.1;
    let b = q.0 * y.1;
    assert((p.0 * x.1) * (q.1 * y.1) == (x.0 * p.1) * (q.1 * y.1));
    assert((q.0 * y.1) * (p.1 * x.1) == (y.0 * q.1) * (p.1 * x.1));
    assert((p.0 * q.1) * (x.1 * y.1) == (p.0 * x.1) * (q.1 * y.1)) by (nonlinear_arith);
    assert((x.0 * y.1) * (p.1 * q.1) == (x.0 * p.1) * (q.1 * y.1)) by (nonlinear_arith);
    assert((q.0 * p.1) * (x.1 * y.1) == (q.0 * y.1) * (p.1 * x.1)) by (nonlinear_arith);
    assert((y.0 * x.1) * (p.1 * q.1) == (y.0 * q.1) * (p.1 * x.1)) by (nonlinear_arith);
    assert(frac_eq(frac_add(p, q), frac_add(x, y))) by (nonlinear_arith)
        requires
            (p.0 * q.1) * (x.1 * y.1) == (x.0 * y.1) * (p.1 * q.1),
            (q.0 * p.1) * (x.1 * y.1) == (y.0 * x.1) * (p.1 * q.1),
    ;
    assert(frac_eq(frac_sub(p, q), frac_sub(x, y))) by (nonlinear_arith)
        requires
            (p.0 * q.1) * (x.1 * y.1) == (x.0 * y.1) * (p.1 * q.1),
            (q.0 * p.1) * (x.1 * y.1) == (y.0 * x.1) * (p.1 * q.1),
    ;
    assert((p.0 * x.1) * (q.0 * y.1) == (x.0 * p.1) * (y.0 * q.1));
    assert((p.0 * q.0) * (x.1 * y.1) == (p.0 * x.1) * (q.0 * y.1)) by (nonlinear_arith);
    assert((x.0 * y.0) * (p.1 * q.1) == (x.0 * p.1) * (y.0 * q.1)) by (nonlinear_arith);
}

/// Value equality is transitive (for positive denominators).
pub proof fn lemma_frac_eq_trans(p: Frac, q: Frac, r: Frac)
    requires
        frac_pos(p),
        frac_pos(q),
        frac_pos(r),
        frac_eq(p, q),
        frac_eq(q, r),
    ensures
        frac_eq(p, r),
{
    assert((p.0 * r.1) * q.1 == (r.0 * p.1) * q.1) by (nonlinear_arith)
        requires
            p.0 * q.1 == q.0 * p.1,
            q.0 * r.1 == r.0 * q.1,
    ;
    lemma_cancel(p.0 * r.1, r.0 * p.1, q.1);
}

proof fn lemma_cancel(a: int, b: int, k: int)
    requires
        k > 0,
        a * k == b * k,
    ensures
        a == b,
{
    if a < b {
        assert(a * k < b * k) by (nonlinear_arith)
            requires
                a < b,
                k > 0,
        ;
    } else if a > b {
        assert(a * k > b * k) by (nonlinear_arith)
            requires
                a > b,
                k > 0,
        ;
    }
}

pub proof fn lemma_frac_eq_symm(p: Frac, q: Frac)
    requires
        frac_eq(p, q),
    ensures
        frac_eq(q, p),
{
}

pub proof fn lemma_frac_pos_ops(p: Frac, q: Frac)
    requires
        frac_pos(p),
        frac_pos(q),
    ensures
        frac_pos(frac_add(p, q)),
        frac_pos(frac_sub(p, q)),
        frac_pos(frac_mul(p, q)),
{
    assert(p.1 * q.1 > 0) by (nonlinear_arith)
        requires
            p.1 > 0,
            q.1 > 0,
    ;
}

} // verus!
