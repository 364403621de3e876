//! Exact rational numbers with checked arithmetic.
//!
//! A `Rat` stores a numerator and a positive denominator, reduced by their
//! greatest common divisor after every operation.  All operations are exact;
//! an operation whose reduced result would not fit the fixed-width fields
//! reports that by returning `None` instead of rounding.
//!
//! The mathematical value of a `Rat` is the fraction `Frac` given by its view.
//! Spec-level arithmetic on `Frac` (`q_add`, `q_mul`, ...) never reduces and
//! never overflows; the contracts of the executable operations tie the two
//! levels together.

use vstd::prelude::*;

verus! {

use vstd::arithmetic::div_mod::{
    lemma_fundamental_div_mod,
    lemma_div_pos_is_pos,
    lemma_div_multiples_vanish,
};

/// Mathematical value of a rational number: the fraction `n / d`.
pub struct Frac {
    pub n: int,
    pub d: int,
}

/// A fraction is well formed when its denominator is positive.
pub open spec fn q_wf(a: Frac) -> bool {
    a.d > 0
}

/// Two fractions denote the same rational number (cross multiplication).
pub open spec fn q_eq(a: Frac, b: Frac) -> bool {
    a.n * b.d == b.n * a.d
}

/// `a <= b` as rationals; meaningful when both denominators are positive.
pub open spec fn q_le(a: Frac, b: Frac) -> bool {
    a.n * b.d <= b.n * a.d
}

/// `a < b` as rationals; meaningful when both denominators are positive.
pub open spec fn q_lt(a: Frac, b: Frac) -> bool {
    a.n * b.d < b.n * a.d
}

pub open spec fn q_add(a: Frac, b: Frac) -> Frac {
    Frac { n: a.n * b.d + b.n * a.d, d: a.d * b.d }
}

pub open spec fn q_sub(a: Frac, b: Frac) -> Frac {
    Frac { n: a.n * b.d - b.n * a.d, d: a.d * b.d }
}

pub open spec fn q_mul(a: Frac, b: Frac) -> Frac {
    Frac { n: a.n * b.n, d: a.d * b.d }
}

/// Division; the sign is moved into the numerator so that the result keeps a
/// positive denominator whenever `a` is well formed and `b` is nonzero.
pub open spec fn q_div(a: Frac, b: Frac) -> Frac {
    if b.n >= 0 {
        Frac { n: a.n * b.d, d: a.d * b.n }
    } else {
        Frac { n: -(a.n * b.d), d: a.d * -b.n }
    }
}

pub open spec fn q_int(i: int) -> Frac {
    Frac { n: i, d: 1 }
}

pub open spec fn q_zero() -> Frac {
    q_int(0)
}

pub open spec fn q_abs(x: int) -> int {
    if x < 0 { -x } else { x }
}

/// Greatest common divisor by Euclid's algorithm.
pub open spec fn gcd(a: nat, b: nat) -> nat
    decreases b,
{
    if b == 0 { a } else { gcd(b, a % b) }
}

/// `d` divides `x`.
pub open spec fn divides(d: nat, x: nat) -> bool {
    exists|k: nat| x == #[trigger] (d * k)
}

pub proof fn lemma_gcd_pos(a: nat, b: nat)
    requires
        a > 0 || b > 0,
    ensures
        gcd(a, b) >= 1,
    decreases b,
{
    if b != 0 {
        lemma_gcd_pos(b, a % b);
    }
}

pub proof fn lemma_gcd_divides(a: nat, b: nat)
    ensures
        divides(gcd(a, b), a),
        divides(gcd(a, b), b),
    decreases b,
{
    let g = gcd(a, b);
    if b == 0 {
        assert(a == g * 1nat);
        assert(b == g * 0nat);
    } else {
        lemma_gcd_divides(b, a % b);
        let k1 = choose|k: nat| b == #[trigger] (g * k);
        let k2 = choose|k: nat| (a % b) == #[trigger] (g * k);
        lemma_fundamental_div_mod(a as int, b as int);
        lemma_div_pos_is_pos(a as int, b as int);
        let q = (a as int) / (b as int);
        assert(a as int == (g * k1) * q + g * k2);
        let kk = (k1 * q + k2) as nat;
        assert(a as int == g * kk) by (nonlinear_arith)
            requires
                a as int == (g as int * k1 as int) * q + g as int * k2 as int,
                q >= 0,
                kk == k1 as int * q + k2 as int,
        {}
        assert(a == g * kk);
    }
}

/// Euclid's algorithm, executable form.
pub fn gcd_u128(a: u128, b: u128) -> (g: u128)
    ensures
        g == gcd(a as nat, b as nat),
    decreases b,
{
    if b == 0 { a } else { gcd_u128(b, a % b) }
}

/// An exact rational number: `num / den`, reduced, `den >= 1`.
///
/// Build values with [`Rat::new`]; the arithmetic methods keep the
/// well-formedness invariant [`Rat::wf`].
#[derive(Clone, Copy, PartialEq, Eq, Structural, Debug)]
pub struct Rat {
    pub num: i64,
    pub den: i64,
}

impl View for Rat {
    type V = Frac;

    open spec fn view(&self) -> Frac {
        Frac { n: self.num as int, d: self.den as int }
    }
}

impl Rat {
    /// Well-formedness: positive denominator, negatable numerator.
    pub open spec fn wf(self) -> bool {
        1 <= self.den && self.num != i64::MIN
    }
}

/// The divisor by which a raw pair `n / d` is reduced.
pub open spec fn norm_g(n: int, d: int) -> nat {
    gcd(q_abs(n) as nat, d as nat)
}

/// Whether the reduced form of `n / d` fits the fields of a `Rat`.
pub open spec fn norm_fits(n: int, d: int) -> bool {
    let g = norm_g(n, d) as int;
    q_abs(n) / g <= i64::MAX && d / g <= i64::MAX
}

/// Reduced form of the raw pair `n / d` (`d >= 1`), or `None` when the
/// reduced numerator or denominator does not fit an `i64`.
pub open spec fn m_norm(n: int, d: int) -> Option<Rat> {
    if norm_fits(n, d) {
        let g = norm_g(n, d) as int;
        let m = q_abs(n) / g;
        let s = if n < 0 { -m } else { m };
        Some(Rat { num: s as i64, den: (d / g) as i64 })
    } else {
        None
    }
}

/// Facts about the reduced form: it is well formed and denotes `n / d`.
pub proof fn lemma_m_norm(n: int, d: int)
    requires
        1 <= d,
    ensures
        m_norm(n, d) matches Some(v) ==> v.wf() && q_eq(v@, Frac { n: n, d: d }),
    decreases 0int,
{
    let na = q_abs(n) as nat;
    let dn = d as nat;
    lemma_gcd_pos(na, dn);
    lemma_gcd_divides(na, dn);
    let g = gcd(na, dn);
    let k1 = choose|k: nat| na == #[trigger] (g * k);
    let k2 = choose|k: nat| dn == #[trigger] (g * k);
    lemma_div_multiples_vanish(k1 as int, g as int);
    lemma_div_multiples_vanish(k2 as int, g as int);
    assert(q_abs(n) / (g as int) == k1);
    assert(d / (g as int) == k2);
    assert(k2 >= 1) by (nonlinear_arith)
        requires
            d == g as int * k2 as int,
            d >= 1,
    {}
    if norm_fits(n, d) {
        let v = m_norm(n, d)->Some_0;
        if n < 0 {
            assert(n == -(g as int * k1 as int));
            assert((-(k1 as int)) * d == n * (k2 as int)) by (nonlinear_arith)
                requires
                    n == -(g as int * k1 as int),
                    d == g as int * k2 as int,
            {}
            assert(v@.n * d == n * v@.d);
        } else {
            assert(n == g as int * k1 as int);
            assert((k1 as int) * d == n * (k2 as int)) by (nonlinear_arith)
                requires
                    n == g as int * k1 as int,
                    d == g as int * k2 as int,
            {}
            assert(v@.n * d == n * v@.d);
        }
    }
}

/// Reduce a wide raw pair into a `Rat`, exactly as `m_norm` describes.
fn from_wide(n: i128, d: i128) -> (r: Option<Rat>)
    requires
        1 <= d,
        n != i128::MIN,
    ensures
        r == m_norm(n as int, d as int),
        r matches Some(v) ==> v.wf() && q_eq(v@, Frac { n: n as int, d: d as int }),
        r is Some <==> norm_fits(n as int, d as int),
{
    proof {
        lemma_m_norm(n as int, d as int);
    }
    let neg = n < 0;
    let n_abs: u128 = if neg { (-n) as u128 } else { n as u128 };
    assert(n_abs as int == q_abs(n as int));
    let g = gcd_u128(n_abs, d as u128);
    proof {
        lemma_gcd_pos(n_abs as nat, d as nat);
    }
    let rn = n_abs / g;
    let rd = (d as u128) / g;
    if rn <= i64::MAX as u128 && rd <= i64::MAX as u128 {
        let num: i64 = if neg { -(rn as i64) } else { rn as i64 };
        Some(Rat { num, den: rd as i64 })
    } else {
        None
    }
}

impl Rat {
    /// The rational zero.
    pub fn zero() -> (r: Rat)
        ensures
            r.wf(),
            r@ == q_zero(),
    {
        Rat { num: 0, den: 1 }
    }

    /// Exact rational `num / den`; `None` when `den == 0` or the reduced
    /// fraction does not fit.
    pub fn new(num: i64, den: i64) -> (r: Option<Rat>)
        ensures
            r matches Some(v) ==> v.wf() && q_eq(v@, Frac { n: num as int, d: den as int }),
            r is Some <==> den != 0 && norm_fits(
                if den < 0 { -(num as int) } else { num as int },
                q_abs(den as int),
            ),
    {
        if den == 0 {
            return None;
        }
        let n: i128 = if den < 0 { -(num as i128) } else { num as i128 };
        let d: i128 = if den < 0 { -(den as i128) } else { den as i128 };
        let r = from_wide(n, d);
        proof {
            if r is Some {
                let v = r->Some_0;
                assert(v@.n * (den as int) == (num as int) * v@.d) by (nonlinear_arith)
                    requires
                        v@.n * (d as int) == (n as int) * v@.d,
                        n as int == if den < 0 { -(num as int) } else { num as int },
                        d as int == if den < 0 { -(den as int) } else { den as int },
                        den != 0,
                {}
            }
        }
        r
    }

    /// Exact sum; `None` when the reduced result does not fit.
    pub fn checked_add(&self, other: &Rat) -> (r: Option<Rat>)
        requires
            self.wf(),
            other.wf(),
        ensures
            r == m_norm(q_add(self@, other@).n, q_add(self@, other@).d),
            r matches Some(v) ==> v.wf() && q_eq(v@, q_add(self@, other@)),
            r is Some <==> norm_fits(q_add(self@, other@).n, q_add(self@, other@).d),
    {
        let an = self.num as i128;
        let ad = self.den as i128;
        let bn = other.num as i128;
        let bd = other.den as i128;
        proof {
            lemma_cross_bound(an as int, ad as int, bn as int, bd as int);
        }
        let n = an * bd + bn * ad;
        let d = ad * bd;
        from_wide(n, d)
    }
}

/// Reduced form of the exact sum of two rationals.
pub open spec fn m_add(a: Rat, b: Rat) -> Option<Rat> {
    m_norm(q_add(a@, b@).n, q_add(a@, b@).d)
}

/// Reduced form of the exact difference of two rationals.
pub open spec fn m_sub(a: Rat, b: Rat) -> Option<Rat> {
    m_norm(q_sub(a@, b@).n, q_sub(a@, b@).d)
}

/// Reduced form of the exact product of two rationals.
pub open spec fn m_mul(a: Rat, b: Rat) -> Option<Rat> {
    m_norm(q_mul(a@, b@).n, q_mul(a@, b@).d)
}

/// Reduced form of the exact quotient of two rationals; `None` when the
/// divisor is zero.
pub open spec fn m_div(a: Rat, b: Rat) -> Option<Rat> {
    if b.num == 0 {
        None
    } else {
        m_norm(q_div(a@, b@).n, q_div(a@, b@).d)
    }
}

impl Rat {
    /// Exact difference; `None` when the reduced result does not fit.
    pub fn checked_sub(&self, other: &Rat) -> (r: Option<Rat>)
        requires
            self.wf(),
            other.wf(),
        ensures
            r == m_sub(*self, *other),
            r matches Some(v) ==> v.wf() && q_eq(v@, q_sub(self@, other@)),
            r is Some <==> norm_fits(q_sub(self@, other@).n, q_sub(self@, other@).d),
    {
        let an = self.num as i128;
        let ad = self.den as i128;
        let bn = other.num as i128;
        let bd = other.den as i128;
        proof {
            lemma_cross_bound(an as int, ad as int, bn as int, bd as int);
        }
        let n = an * bd - bn * ad;
        let d = ad * bd;
        from_wide(n, d)
    }

    /// Exact product; `None` when the reduced result does not fit.
    pub fn checked_mul(&self, other: &Rat) -> (r: Option<Rat>)
        requires
            self.wf(),
            other.wf(),
        ensures
            r == m_mul(*self, *other),
            r matches Some(v) ==> v.wf() && q_eq(v@, q_mul(self@, other@)),
            r is Some <==> norm_fits(q_mul(self@, other@).n, q_mul(self@, other@).d),
    {
        let an = self.num as i128;
        let ad = self.den as i128;
        let bn = other.num as i128;
        let bd = other.den as i128;
        proof {
            lemma_cross_bound(an as int, ad as int, bn as int, bd as int);
        }
        let n = an * bn;
        let d = ad * bd;
        from_wide(n, d)
    }

    /// Exact quotient; `None` when the divisor is zero or the reduced result
    /// does not fit.
    pub fn checked_div(&self, other: &Rat) -> (r: Option<Rat>)
        requires
            self.wf(),
            other.wf(),
        ensures
            r == m_div(*self, *other),
            r matches Some(v) ==> v.wf() && q_eq(v@, q_div(self@, other@)),
            r is Some <==> other.num != 0 && norm_fits(
                q_div(self@, other@).n,
                q_div(self@, other@).d,
            ),
    {
        if other.num == 0 {
            return None;
        }
        let an = self.num as i128;
        let ad = self.den as i128;
        let bn = other.num as i128;
        let bd = other.den as i128;
        proof {
            lemma_cross_bound(an as int, ad as int, bn as int, bd as int);
        }
        if other.num > 0 {
            proof {
                assert(1 <= ad * bn <= i64::MAX as int * i64::MAX as int) by (nonlinear_arith)
                    requires
                        1 <= ad <= i64::MAX as int,
                        1 <= bn <= i64::MAX as int,
                {}
            }
            from_wide(an * bd, ad * bn)
        } else {
            proof {
                assert(1 <= ad * -bn <= i64::MAX as int * i64::MAX as int) by (nonlinear_arith)
                    requires
                        1 <= ad <= i64::MAX as int,
                        1 <= -bn <= i64::MAX as int,
                {}
            }
            from_wide(-(an * bd), ad * -bn)
        }
    }

    /// Exact order test `self <= other`.
    pub fn le(&self, other: &Rat) -> (r: bool)
        requires
            self.wf(),
            other.wf(),
        ensures
            r == q_le(self@, other@),
    {
        proof {
            lemma_cross_bound(
                self.num as int,
                self.den as int,
                other.num as int,
                other.den as int,
            );
        }
        (self.num as i128) * (other.den as i128) <= (other.num as i128) * (self.den as i128)
    }

    /// Exact order test `self < other`.
    pub fn lt(&self, other: &Rat) -> (r: bool)
        requires
            self.wf(),
            other.wf(),
        ensures
            r == q_lt(self@, other@),
    {
        proof {
            lemma_cross_bound(
                self.num as int,
                self.den as int,
                other.num as int,
                other.den as int,
            );
        }
        (self.num as i128) * (other.den as i128) < (other.num as i128) * (self.den as i128)
    }

    /// Exact value equality (independent of representation).
    pub fn eq_value(&self, other: &Rat) -> (r: bool)
        requires
            self.wf(),
            other.wf(),
        ensures
            r == q_eq(self@, other@),
    {
        proof {
            lemma_cross_bound(
                self.num as int,
                self.den as int,
                other.num as int,
                other.den as int,
            );
        }
        (self.num as i128) * (other.den as i128) == (other.num as i128) * (self.den as i128)
    }

    /// Runtime check of the well-formedness invariant, for callers that
    /// build a `Rat` directly instead of through [`Rat::new`].
    pub fn check_wf(&self) -> (b: bool)
        ensures
            b == self.wf(),
    {
        self.den >= 1 && self.num != i64::MIN
    }

    /// Whether the value is strictly positive.
    pub fn is_pos(&self) -> (r: bool)
        requires
            self.wf(),
        ensures
            r == q_lt(q_zero(), self@),
    {
        self.num > 0
    }

    /// Whether the value is zero or more.
    pub fn is_nonneg(&self) -> (r: bool)
        requires
            self.wf(),
        ensures
            r == q_le(q_zero(), self@),
    {
        self.num >= 0
    }
}

/// `x * c == y * c` with `c` nonzero forces `x == y`.
pub proof fn lemma_mul_cancel(x: int, y: int, c: int)
    by (nonlinear_arith)
    requires
        x * c == y * c,
        c != 0,
    ensures
        x == y,
{
}

/// Transitivity of rational equality across well-formed fractions.
pub proof fn lemma_q_eq_trans(a: Frac, b: Frac, c: Frac)
    requires
        q_wf(a),
        q_wf(b),
        q_wf(c),
        q_eq(a, b),
        q_eq(b, c),
    ensures
        q_eq(a, c),
{
    assert((a.n * c.d) * b.d == (c.n * a.d) * b.d) by (nonlinear_arith)
        requires
            a.n * b.d == b.n * a.d,
            b.n * c.d == c.n * b.d,
    {}
    lemma_mul_cancel(a.n * c.d, c.n * a.d, b.d);
}

/// Addition respects rational equality.
pub proof fn lemma_q_add_cong(a: Frac, a2: Frac, b: Frac, b2: Frac)
    requires
        q_eq(a, a2),
        q_eq(b, b2),
    ensures
        q_eq(q_add(a, b), q_add(a2, b2)),
{
    assert((a.n * b.d + b.n * a.d) * (a2.d * b2.d) == (a.n * b.d) * (a2.d * b2.d) + (b.n * a.d)
        * (a2.d * b2.d)) by (nonlinear_arith) {}
    assert((a.n * b.d) * (a2.d * b2.d) == (a.n * a2.d) * (b.d * b2.d)) by (nonlinear_arith) {}
    assert((b.n * a.d) * (a2.d * b2.d) == (b.n * b2.d) * (a.d * a2.d)) by (nonlinear_arith) {}
    assert((a2.n * b2.d + b2.n * a2.d) * (a.d * b.d) == (a2.n * b2.d) * (a.d * b.d) + (b2.n
        * a2.d) * (a.d * b.d)) by (nonlinear_arith) {}
    assert((a2.n * b2.d) * (a.d * b.d) == (a2.n * a.d) * (b.d * b2.d)) by (nonlinear_arith) {}
    assert((b2.n * a2.d) * (a.d * b.d) == (b2.n * b.d) * (a.d * a2.d)) by (nonlinear_arith) {}
    assert((a.n * a2.d) * (b.d * b2.d) == (a2.n * a.d) * (b.d * b2.d));
    assert((b.n * b2.d) * (a.d * a2.d) == (b2.n * b.d) * (a.d * a2.d));
}

/// Subtraction respects rational equality.
pub proof fn lemma_q_sub_cong(a: Frac, a2: Frac, b: Frac, b2: Frac)
    requires
        q_eq(a, a2),
        q_eq(b, b2),
    ensures
        q_eq(q_sub(a, b), q_sub(a2, b2)),
{
    assert((a.n * b.d - b.n * a.d) * (a2.d * b2.d) == (a.n * b.d) * (a2.d * b2.d) - (b.n * a.d)
        * (a2.d * b2.d)) by (nonlinear_arith) {}
    assert((a.n * b.d) * (a2.d * b2.d) == (a.n * a2.d) * (b.d * b2.d)) by (nonlinear_arith) {}
    assert((b.n * a.d) * (a2.d * b2.d) == (b.n * b2.d) * (a.d * a2.d)) by (nonlinear_arith) {}
    assert((a2.n * b2.d - b2.n * a2.d) * (a.d * b.d) == (a2.n * b2.d) * (a.d * b.d) - (b2.n
        * a2.d) * (a.d * b.d)) by (nonlinear_arith) {}
    assert((a2.n * b2.d) * (a.d * b.d) == (a2.n * a.d) * (b.d * b2.d)) by (nonlinear_arith) {}
    assert((b2.n * a2.d) * (a.d * b.d) == (b2.n * b.d) * (a.d * a2.d)) by (nonlinear_arith) {}
    assert((a.n * a2.d) * (b.d * b2.d) == (a2.n * a.d) * (b.d * b2.d));
    assert((b.n * b2.d) * (a.d * a2.d) == (b2.n * b.d) * (a.d * a2.d));
}

/// Multiplication respects rational equality.
pub proof fn lemma_q_mul_cong(a: Frac, a2: Frac, b: Frac, b2: Frac)
    requires
        q_eq(a, a2),
        q_eq(b, b2),
    ensures
        q_eq(q_mul(a, b), q_mul(a2, b2)),
{
    assert((a.n * b.n) * (a2.d * b2.d) == (a.n * a2.d) * (b.n * b2.d)) by (nonlinear_arith) {}
    assert((a.n * a2.d) * (b.n * b2.d) == (a2.n * a.d) * (b2.n * b.d));
    assert((a2.n * a.d) * (b2.n * b.d) == (a2.n * b2.n) * (a.d * b.d)) by (nonlinear_arith) {}
}

/// Division respects rational equality when the divisor is nonzero.
pub proof fn lemma_q_div_cong(a: Frac, a2: Frac, b: Frac, b2: Frac)
    requires
        q_wf(a),
        q_wf(a2),
        q_wf(b),
        q_wf(b2),
        q_eq(a, a2),
        q_eq(b, b2),
        b.n != 0,
    ensures
        q_eq(q_div(a, b), q_div(a2, b2)),
{
    assert(b2.n != 0 && (b.n > 0 <==> b2.n > 0)) by (nonlinear_arith)
        requires
            b.n * b2.d == b2.n * b.d,
            b.d > 0,
            b2.d > 0,
            b.n != 0,
    {}
    assert((a.n * a2.d) * (b2.n * b.d) == (a2.n * a.d) * (b.n * b2.d));
    if b.n > 0 {
        assert((a.n * b.d) * (a2.d * b2.n) == (a.n * a2.d) * (b2.n * b.d)) by (nonlinear_arith) {}
        assert((a2.n * a.d) * (b.n * b2.d) == (a2.n * b2.d) * (a.d * b.n)) by (nonlinear_arith) {}
    } else {
        assert((-(a.n * b.d)) * (a2.d * -b2.n) == (a.n * a2.d) * (b2.n * b.d))
            by (nonlinear_arith) {}
        assert((a2.n * a.d) * (b.n * b2.d) == (-(a2.n * b2.d)) * (a.d * -b.n))
            by (nonlinear_arith) {}
    }
}

/// The order of rationals respects rational equality.
pub proof fn lemma_q_le_cong(a: Frac, a2: Frac, b: Frac, b2: Frac)
    requires
        q_wf(a),
        q_wf(a2),
        q_wf(b),
        q_wf(b2),
        q_eq(a, a2),
        q_eq(b, b2),
    ensures
        q_le(a, b) == q_le(a2, b2),
        q_lt(a, b) == q_lt(a2, b2),
{
    assert((q_le(a, b) == q_le(a2, b2)) && (q_lt(a, b) == q_lt(a2, b2))) by (nonlinear_arith)
        requires
            a.n * a2.d == a2.n * a.d,
            b.n * b2.d == b2.n * b.d,
            a.d > 0,
            a2.d > 0,
            b.d > 0,
            b2.d > 0,
    {}
}

/// Adding and then subtracting the same fraction gives the other summand
/// back.
pub proof fn lemma_q_add_sub(a: Frac, b: Frac)
    requires
        q_wf(a),
        q_wf(b),
    ensures
        q_eq(q_sub(q_add(a, b), a), b),
{
    assert(((a.n * b.d + b.n * a.d) * a.d - a.n * (a.d * b.d)) * b.d == b.n * ((a.d * b.d)
        * a.d)) by (nonlinear_arith) {}
}

/// Addition of fractions is associative up to rational equality.
pub proof fn lemma_q_add_assoc(a: Frac, b: Frac, c: Frac)
    ensures
        q_eq(q_add(a, q_add(b, c)), q_add(q_add(a, b), c)),
{
    let l = q_add(a, q_add(b, c));
    let r = q_add(q_add(a, b), c);
    assert(l.d == r.d) by (nonlinear_arith)
        requires
            l.d == a.d * (b.d * c.d),
            r.d == (a.d * b.d) * c.d,
    {}
    assert(a.n * (b.d * c.d) == (a.n * b.d) * c.d) by (nonlinear_arith) {}
    assert((b.n * c.d + c.n * b.d) * a.d == (b.n * c.d) * a.d + (c.n * b.d) * a.d)
        by (nonlinear_arith) {}
    assert((b.n * c.d) * a.d == (b.n * a.d) * c.d) by (nonlinear_arith) {}
    assert((c.n * b.d) * a.d == c.n * (a.d * b.d)) by (nonlinear_arith) {}
    assert((a.n * b.d + b.n * a.d) * c.d == (a.n * b.d) * c.d + (b.n * a.d) * c.d)
        by (nonlinear_arith) {}
    assert(l.n == r.n);
}

/// Adding zero does not change a fraction's value.
pub proof fn lemma_q_add_zero(a: Frac)
    ensures
        q_eq(q_add(a, q_zero()), a),
        q_add(a, q_zero()).d == a.d,
{
}

/// A difference of ordered fractions is nonnegative.
pub proof fn lemma_q_sub_nonneg(a: Frac, b: Frac)
    requires
        q_wf(a),
        q_wf(b),
        q_le(b, a),
    ensures
        q_le(q_zero(), q_sub(a, b)),
        q_wf(q_sub(a, b)),
{
    assert(0 * (a.d * b.d) <= (a.n * b.d - b.n * a.d) * 1 && a.d * b.d > 0)
        by (nonlinear_arith)
        requires
            b.n * a.d <= a.n * b.d,
            a.d > 0,
            b.d > 0,
    {}
}

/// A product of nonnegative fractions is nonnegative.
pub proof fn lemma_q_mul_nonneg(a: Frac, b: Frac)
    by (nonlinear_arith)
    requires
        q_wf(a),
        q_wf(b),
        q_le(q_zero(), a),
        q_le(q_zero(), b),
    ensures
        q_le(q_zero(), q_mul(a, b)),
{
}

/// A sum of nonnegative fractions is nonnegative.
pub proof fn lemma_q_sum_nonneg(s: Seq<Frac>)
    requires
        forall|j: int| 0 <= j < s.len() ==> q_wf(#[trigger] s[j]) && q_le(q_zero(), s[j]),
    ensures
        q_le(q_zero(), q_sum(s)),
    decreases s.len(),
{
    if s.len() > 0 {
        lemma_q_sum_nonneg(s.drop_last());
        lemma_q_sum_wf(s.drop_last());
        assert(q_le(q_zero(), q_add(q_sum(s.drop_last()), s.last()))) by (nonlinear_arith)
            requires
                q_sum(s.drop_last()).d > 0,
                s.last().d > 0,
                0 <= q_sum(s.drop_last()).n,
                0 <= s.last().n,
        {}
    }
}

/// Elementwise-equal sequences of fractions have equal exact sums.
pub proof fn lemma_q_sum_cong(s1: Seq<Frac>, s2: Seq<Frac>)
    requires
        s1.len() == s2.len(),
        forall|k: int| 0 <= k < s1.len() ==> q_eq(#[trigger] s1[k], s2[k]),
    ensures
        q_eq(q_sum(s1), q_sum(s2)),
    decreases s1.len(),
{
    if s1.len() == 0 {
    } else {
        let n = s1.len() as int;
        lemma_q_sum_cong(s1.drop_last(), s2.drop_last());
        lemma_q_add_cong(
            q_sum(s1.drop_last()),
            q_sum(s2.drop_last()),
            s1[n - 1],
            s2[n - 1],
        );
    }
}

/// Fold of a sequence of fractions into their exact (unreduced) sum.
pub open spec fn q_sum(s: Seq<Frac>) -> Frac
    decreases s.len(),
{
    if s.len() == 0 {
        q_zero()
    } else {
        q_add(q_sum(s.drop_last()), s.last())
    }
}

/// A sum of well-formed fractions is well formed.
pub proof fn lemma_q_sum_wf(s: Seq<Frac>)
    requires
        forall|j: int| 0 <= j < s.len() ==> q_wf(#[trigger] s[j]),
    ensures
        q_wf(q_sum(s)),
    decreases s.len(),
{
    if s.len() > 0 {
        lemma_q_sum_wf(s.drop_last());
        assert(q_wf(s.last()));
        assert(q_sum(s.drop_last()).d * s.last().d > 0) by (nonlinear_arith)
            requires
                q_sum(s.drop_last()).d > 0,
                s.last().d > 0,
        {}
    }
}

/// The views of a sequence of rationals.
pub open spec fn fracs_of(s: Seq<Rat>) -> Seq<Frac> {
    s.map_values(|r: Rat| r@)
}

/// Mirror of the running sum of the first `i` elements, `None` as soon as one
/// step fails to fit.
pub open spec fn m_sum_prefix(s: Seq<Rat>, i: int) -> Option<Rat>
    decreases i,
{
    if i <= 0 {
        Some(Rat { num: 0, den: 1 })
    } else {
        match m_sum_prefix(s, i - 1) {
            Some(acc) => m_add(acc, s[i - 1]),
            None => None,
        }
    }
}

/// Mirror of summing a whole sequence of rationals.
pub open spec fn m_sum(s: Seq<Rat>) -> Option<Rat> {
    m_sum_prefix(s, s.len() as int)
}

/// A successful mirrored sum is well formed and denotes the exact sum of the
/// first `i` values.
pub proof fn lemma_m_sum_prefix(s: Seq<Rat>, i: int)
    requires
        0 <= i <= s.len(),
        forall|j: int| 0 <= j < s.len() ==> #[trigger] s[j].wf(),
    ensures
        m_sum_prefix(s, i) matches Some(v) ==> v.wf() && q_eq(
            v@,
            q_sum(fracs_of(s).take(i)),
        ),
    decreases i,
{
    if i > 0 {
        lemma_m_sum_prefix(s, i - 1);
        if m_sum_prefix(s, i) is Some {
            let acc = m_sum_prefix(s, i - 1)->Some_0;
            let v = m_sum_prefix(s, i)->Some_0;
            assert(s[i - 1].wf());
            assert(q_add(acc@, s[i - 1]@).d >= 1) by (nonlinear_arith)
                requires
                    acc@.d >= 1,
                    s[i - 1]@.d >= 1,
            {}
            lemma_m_norm(q_add(acc@, s[i - 1]@).n, q_add(acc@, s[i - 1]@).d);
            let fr = fracs_of(s);
            assert(fr.take(i).drop_last() =~= fr.take(i - 1));
            assert(fr.take(i).last() == s[i - 1]@);
            let tail = q_sum(fr.take(i - 1));
            assert forall|j: int| 0 <= j < fr.take(i - 1).len() implies q_wf(
                #[trigger] fr.take(i - 1)[j],
            ) by {
                assert(fr.take(i - 1)[j] == s[j]@);
                assert(s[j].wf());
            }
            lemma_q_sum_wf(fr.take(i - 1));
            lemma_q_add_cong(acc@, tail, s[i - 1]@, s[i - 1]@);
            assert(q_wf(q_add(acc@, s[i - 1]@)) && q_wf(q_add(tail, s[i - 1]@)))
                by (nonlinear_arith)
                requires
                    acc@.d > 0,
                    tail.d > 0,
                    s[i - 1]@.d > 0,
            {}
            lemma_q_eq_trans(v@, q_add(acc@, s[i - 1]@), q_add(tail, s[i - 1]@));
        }
    }
}

/// Exact sum of a vector of rationals; `None` when an intermediate reduced
/// sum does not fit.
pub fn sum_rats(v: &Vec<Rat>) -> (r: Option<Rat>)
    requires
        forall|j: int| 0 <= j < v@.len() ==> #[trigger] v@[j].wf(),
    ensures
        r == m_sum(v@),
        r matches Some(s) ==> s.wf() && q_eq(s@, q_sum(fracs_of(v@))),
{
    let mut acc = Rat::zero();
    let mut i: usize = 0;
    while i < v.len()
        invariant
            0 <= i <= v@.len(),
            forall|j: int| 0 <= j < v@.len() ==> #[trigger] v@[j].wf(),
            m_sum_prefix(v@, i as int) == Some(acc),
            acc.wf(),
        decreases v@.len() - i,
    {
        let next = acc.checked_add(&v[i]);
        match next {
            Some(n) => {
                acc = n;
            },
            None => {
                proof {
                    assert(m_sum_prefix(v@, i + 1) is None);
                    lemma_m_sum_none(v@, i + 1, v@.len() as int);
                }
                return None;
            },
        }
        i = i + 1;
    }
    proof {
        lemma_m_sum_prefix(v@, v@.len() as int);
        assert(fracs_of(v@).take(v@.len() as int) =~= fracs_of(v@));
    }
    Some(acc)
}

/// Once a running sum fails to fit, every longer running sum fails too.
pub proof fn lemma_m_sum_none(s: Seq<Rat>, i: int, j: int)
    requires
        0 <= i <= j,
        m_sum_prefix(s, i) is None,
    ensures
        m_sum_prefix(s, j) is None,
    decreases j - i,
{
    if j > i {
        lemma_m_sum_none(s, i, j - 1);
    }
}

/// A successful mirrored sum denotes the exact sum and is well formed.
pub proof fn lemma_m_add_value(a: Rat, b: Rat)
    requires
        a.wf(),
        b.wf(),
    ensures
        m_add(a, b) matches Some(v) ==> v.wf() && q_eq(v@, q_add(a@, b@)),
{
    assert(q_add(a@, b@).d >= 1) by (nonlinear_arith)
        requires
            a@.d >= 1,
            b@.d >= 1,
    {}
    lemma_m_norm(q_add(a@, b@).n, q_add(a@, b@).d);
}

/// Fold of a sequence of fractions into the largest among them and zero.
pub open spec fn q_max_fold(s: Seq<Frac>) -> Frac
    decreases s.len(),
{
    if s.len() == 0 {
        q_zero()
    } else {
        let rest = q_max_fold(s.drop_last());
        if q_le(rest, s.last()) {
            s.last()
        } else {
            rest
        }
    }
}

/// The fold result bounds every element from above.
pub proof fn lemma_q_max_fold_bounds(s: Seq<Frac>)
    requires
        forall|j: int| 0 <= j < s.len() ==> q_wf(#[trigger] s[j]),
    ensures
        q_wf(q_max_fold(s)),
        forall|j: int| 0 <= j < s.len() ==> q_le(#[trigger] s[j], q_max_fold(s)),
        q_le(q_zero(), q_max_fold(s)),
        q_max_fold(s) == q_zero() || exists|j: int| 0 <= j < s.len() && q_max_fold(s)
            == #[trigger] s[j],
    decreases s.len(),
{
    if s.len() > 0 {
        lemma_q_max_fold_bounds(s.drop_last());
        let rest = q_max_fold(s.drop_last());
        let m = q_max_fold(s);
        assert(forall|j: int| 0 <= j < s.len() - 1 ==> #[trigger] s[j] == s.drop_last()[j]);
        assert forall|j: int| 0 <= j < s.len() implies q_le(#[trigger] s[j], m) by {
            if j < s.len() - 1 {
                assert(q_le(s[j], rest));
                if q_le(rest, s.last()) {
                    assert(q_le(s[j], s.last())) by (nonlinear_arith)
                        requires
                            s[j].n * rest.d <= rest.n * s[j].d,
                            rest.n * s.last().d <= s.last().n * rest.d,
                            s[j].d > 0,
                            rest.d > 0,
                            s.last().d > 0,
                    {}
                }
            } else {
                if !q_le(rest, s.last()) {
                    assert(q_le(s.last(), rest));
                }
            }
        }
        if q_le(rest, s.last()) {
            assert(rest.n >= 0);
            assert(s.last().n >= 0) by (nonlinear_arith)
                requires
                    rest.n >= 0,
                    rest.n * s.last().d <= s.last().n * rest.d,
                    rest.d > 0,
                    s.last().d > 0,
            {}
            assert(q_le(q_zero(), m));
            assert(m == s[s.len() - 1]);
        }
    }
}

/// Mirror of folding the first `i` rationals into the largest among them and
/// zero, keeping the representation of the selected element.
pub open spec fn x_max_prefix(s: Seq<Rat>, i: int) -> Rat
    decreases i,
{
    if i <= 0 {
        Rat { num: 0, den: 1 }
    } else {
        let rest = x_max_prefix(s, i - 1);
        if q_le(rest@, s[i - 1]@) {
            s[i - 1]
        } else {
            rest
        }
    }
}

/// Mirror of folding a whole sequence of rationals into its largest value.
pub open spec fn x_max(s: Seq<Rat>) -> Rat {
    x_max_prefix(s, s.len() as int)
}

/// Elementwise-equal sequences of fractions have equal largest values.
pub proof fn lemma_q_max_fold_cong(s1: Seq<Frac>, s2: Seq<Frac>)
    requires
        s1.len() == s2.len(),
        forall|k: int| 0 <= k < s1.len() ==> q_wf(#[trigger] s1[k]) && q_wf(s2[k]) && q_eq(
            s1[k],
            s2[k],
        ),
    ensures
        q_eq(q_max_fold(s1), q_max_fold(s2)),
        q_wf(q_max_fold(s1)),
        q_wf(q_max_fold(s2)),
    decreases s1.len(),
{
    if s1.len() == 0 {
    } else {
        let n = s1.len() as int;
        lemma_q_max_fold_cong(s1.drop_last(), s2.drop_last());
        let r1 = q_max_fold(s1.drop_last());
        let r2 = q_max_fold(s2.drop_last());
        lemma_q_le_cong(r1, r2, s1[n - 1], s2[n - 1]);
    }
}

/// Largest value in a vector of rationals, folded from zero.
pub fn max_rats(v: &Vec<Rat>) -> (r: Rat)
    requires
        forall|j: int| 0 <= j < v@.len() ==> #[trigger] v@[j].wf(),
    ensures
        r == x_max(v@),
        r.wf(),
        r@ == q_max_fold(fracs_of(v@)),
{
    let mut acc = Rat::zero();
    let mut i: usize = 0;
    while i < v.len()
        invariant
            0 <= i <= v@.len(),
            forall|j: int| 0 <= j < v@.len() ==> #[trigger] v@[j].wf(),
            acc.wf(),
            acc == x_max_prefix(v@, i as int),
            acc@ == q_max_fold(fracs_of(v@).take(i as int)),
        decreases v@.len() - i,
    {
        proof {
            assert(fracs_of(v@).take(i + 1).drop_last() =~= fracs_of(v@).take(i as int));
            assert(fracs_of(v@).take(i + 1).last() == v@[i as int]@);
        }
        if acc.le(&v[i]) {
            acc = v[i];
        }
        i = i + 1;
    }
    proof {
        assert(fracs_of(v@).take(v@.len() as int) =~= fracs_of(v@));
    }
    acc
}

/// Bounds on the raw pair built from two well-formed rationals, so that the
/// wide products and their sum stay inside `i128`.
proof fn lemma_cross_bound(an: int, ad: int, bn: int, bd: int)
    requires
        -i64::MAX <= an <= i64::MAX,
        -i64::MAX <= bn <= i64::MAX,
        1 <= ad <= i64::MAX,
        1 <= bd <= i64::MAX,
    ensures
        -(i64::MAX as int * i64::MAX as int) <= an * bd <= i64::MAX as int * i64::MAX as int,
        -(i64::MAX as int * i64::MAX as int) <= bn * ad <= i64::MAX as int * i64::MAX as int,
        -(i64::MAX as int * i64::MAX as int) <= an * bn <= i64::MAX as int * i64::MAX as int,
        1 <= ad * bd <= i64::MAX as int * i64::MAX as int,
        2 * (i64::MAX as int * i64::MAX as int) < i128::MAX,
{
    let m = i64::MAX as int;
    assert(-(m * m) <= an * bd <= m * m) by (nonlinear_arith)
        requires
            -m <= an <= m,
            1 <= bd <= m,
            m > 0,
    {}
    assert(-(m * m) <= bn * ad <= m * m) by (nonlinear_arith)
        requires
            -m <= bn <= m,
            1 <= ad <= m,
            m > 0,
    {}
    assert(-(m * m) <= an * bn <= m * m) by (nonlinear_arith)
        requires
            -m <= an <= m,
            -m <= bn <= m,
            m > 0,
    {}
    assert(1 <= ad * bd <= m * m) by (nonlinear_arith)
        requires
            1 <= ad <= m,
            1 <= bd <= m,
    {}
}

} // verus!
