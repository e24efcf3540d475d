//! Exact rational arithmetic for musical time and layout widths.
//!
//! A value is a pair of a numerator and a positive denominator in `i64`.
//! Operations compute exactly in `i128`, reduce by the greatest common
//! divisor, and report `None` when the reduced result does not fit; every
//! operation is proved against a specification-level mirror.
use vstd::prelude::*;

verus! {

/// Greatest common divisor of two non-negative integers.
pub open spec fn gcd(a: int, b: int) -> int
    decreases b when b >= 0
{
    if b <= 0 {
        a
    } else {
        gcd(b, a % b)
    }
}

/// The divisor is positive whenever either argument is.
pub proof fn lemma_gcd_pos(a: int, b: int)
    requires
        a >= 0,
        b >= 0,
        a > 0 || b > 0,
    ensures
        gcd(a, b) > 0,
    decreases b,
{
    if b > 0 {
        lemma_gcd_pos(b, a % b);
    }
}

/// The divisor divides both arguments and is at most either positive one.
pub proof fn lemma_gcd_divides(a: int, b: int)
    requires
        a >= 0,
        b >= 0,
    ensures
        b > 0 || a > 0 ==> gcd(a, b) > 0,
        b > 0 || a > 0 ==> a % gcd(a, b) == 0,
        b > 0 || a > 0 ==> b % gcd(a, b) == 0,
        b > 0 ==> gcd(a, b) <= b,
        a > 0 ==> gcd(a, b) <= a,
    decreases b,
{
    if a > 0 || b > 0 {
        lemma_gcd_pos(a, b);
    }
    if a > 0 || b > 0 {
        lemma_gcd_divides_core(a, b);
        let g = gcd(a, b);
        if b > 0 {
            vstd::arithmetic::div_mod::lemma_fundamental_div_mod(b, g);
            let kb = b / g;
            assert(b == g * kb);
            assert(g <= b) by (nonlinear_arith)
                requires
                    b == g * kb,
                    b > 0,
                    g > 0,
            ;
        }
        if a > 0 {
            vstd::arithmetic::div_mod::lemma_fundamental_div_mod(a, g);
            let ka = a / g;
            assert(a == g * ka);
            assert(g <= a) by (nonlinear_arith)
                requires
                    a == g * ka,
                    a > 0,
                    g > 0,
            ;
        }
    }
}

proof fn lemma_gcd_divides_core(a: int, b: int)
    requires
        a >= 0,
        b >= 0,
        a > 0 || b > 0,
    ensures
        gcd(a, b) > 0,
        a % gcd(a, b) == 0,
        b % gcd(a, b) == 0,
    decreases b,
{
    lemma_gcd_pos(a, b);
    if b > 0 {
        let r = a % b;
        vstd::arithmetic::div_mod::lemma_mod_division_less_than_divisor(a, b);
        lemma_gcd_divides_core(b, r);
        let g = gcd(b, r);
        assert(gcd(a, b) == g);
        // a == b*(a/b) + r, with g dividing b and r, so g divides a
        vstd::arithmetic::div_mod::lemma_fundamental_div_mod(a, b);
        vstd::arithmetic::div_mod::lemma_fundamental_div_mod(b, g);
        vstd::arithmetic::div_mod::lemma_fundamental_div_mod(r, g);
        let kb = b / g;
        let kr = r / g;
        assert(a == (g * kb) * (a / b) + g * kr);
        assert(a == g * (kb * (a / b) + kr)) by (nonlinear_arith)
            requires
                a == (g * kb) * (a / b) + g * kr,
        ;
        vstd::arithmetic::div_mod::lemma_mod_multiples_basic(kb * (a / b) + kr, g);
    }
}

/// A rational number: numerator over positive denominator.
#[derive(Clone, Copy, Debug, PartialEq, Eq, Structural)]
pub struct Rat {
    pub n: i64,
    pub d: i64,
}

/// Well-formedness: the denominator is positive and the numerator avoids the
/// asymmetric extreme, so negation is always exact.
pub open spec fn rat_wf(r: Rat) -> bool {
    r.d > 0 && r.n > i64::MIN
}

/// Two rationals denote the same value.
pub open spec fn rat_eq(a: Rat, b: Rat) -> bool {
    a.n * b.d == b.n * a.d
}

/// `a` is at most `b`.
pub open spec fn rat_le(a: Rat, b: Rat) -> bool {
    a.n * b.d <= b.n * a.d
}

/// `a` is strictly below `b`.
pub open spec fn rat_lt(a: Rat, b: Rat) -> bool {
    a.n * b.d < b.n * a.d
}

/// The reduced rational `n/d`, or `None` when it does not fit in `i64`.
pub open spec fn mk_rat(n: int, d: int) -> Option<Rat>
    recommends
        d > 0,
{
    let a = if n < 0 {
        -n
    } else {
        n
    };
    let g = gcd(a, d);
    let n2 = n / g;
    let d2 = d / g;
    if -(i64::MAX as int) <= n2 <= i64::MAX as int && 0 < d2 <= i64::MAX as int {
        Some(Rat { n: n2 as i64, d: d2 as i64 })
    } else {
        None
    }
}

/// What a successful `mk_rat` returns: a well-formed rational with exactly
/// the value `n/d`.
pub proof fn lemma_mk_rat(n: int, d: int)
    requires
        d > 0,
        mk_rat(n, d) is Some,
    ensures
        rat_wf(mk_rat(n, d)->Some_0),
        mk_rat(n, d)->Some_0.n * d == n * mk_rat(n, d)->Some_0.d,
        n >= 0 ==> mk_rat(n, d)->Some_0.n >= 0,
        n > 0 ==> mk_rat(n, d)->Some_0.n > 0,
{
    let a = if n < 0 {
        -n
    } else {
        n
    };
    let g = gcd(a, d);
    lemma_gcd_divides(a, d);
    let r = mk_rat(n, d)->Some_0;
    vstd::arithmetic::div_mod::lemma_fundamental_div_mod(a, g);
    vstd::arithmetic::div_mod::lemma_fundamental_div_mod(d, g);
    let ka = a / g;
    let kd = d / g;
    assert(a == g * ka);
    assert(d == g * kd);
    if n < 0 {
        // n == -a == g * (-ka); Euclidean division is exact here
        assert(n == g * (-ka)) by (nonlinear_arith)
            requires
                a == g * ka,
                n == -a,
        ;
        vstd::arithmetic::div_mod::lemma_div_multiples_vanish(-ka, g);
        assert(n / g == -ka);
    } else {
        vstd::arithmetic::div_mod::lemma_div_multiples_vanish(ka, g);
        assert(n / g == ka);
    }
    vstd::arithmetic::div_mod::lemma_div_multiples_vanish(kd, g);
    assert(d / g == kd);
    assert(kd > 0) by (nonlinear_arith)
        requires
            d == g * kd,
            d > 0,
            g > 0,
    ;
    assert(r.n * d == n * r.d) by (nonlinear_arith)
        requires
            n == g * (r.n as int),
            d == g * (r.d as int),
    ;
    if n > 0 {
        assert(r.n > 0) by (nonlinear_arith)
            requires
                n == g * (r.n as int),
                n > 0,
                g > 0,
        ;
    }
    if n == 0 {
        assert(g * (r.n as int) == 0);
        assert(r.n == 0) by (nonlinear_arith)
            requires
                g * (r.n as int) == 0,
                g > 0,
        ;
    }
}

/// The reduced value of a sum.
pub open spec fn spec_add(a: Rat, b: Rat) -> Option<Rat> {
    mk_rat(a.n * b.d + b.n * a.d, a.d * b.d)
}

/// The reduced value of a difference.
pub open spec fn spec_sub(a: Rat, b: Rat) -> Option<Rat> {
    mk_rat(a.n * b.d - b.n * a.d, a.d * b.d)
}

/// The reduced value of a product.
pub open spec fn spec_mul(a: Rat, b: Rat) -> Option<Rat> {
    mk_rat(a.n * b.n, a.d * b.d)
}

/// The reduced value of a quotient; `None` also covers division by zero.
pub open spec fn spec_div(a: Rat, b: Rat) -> Option<Rat> {
    if b.n == 0 {
        None
    } else if b.n < 0 {
        mk_rat(-(a.n * b.d), a.d * -b.n)
    } else {
        mk_rat(a.n * b.d, a.d * b.n)
    }
}

/// A successful sum is well formed and has exactly the summed value.
pub proof fn lemma_spec_add(a: Rat, b: Rat)
    requires
        rat_wf(a),
        rat_wf(b),
        spec_add(a, b) is Some,
    ensures
        rat_wf(spec_add(a, b)->Some_0),
        spec_add(a, b)->Some_0.n * (a.d * b.d) == (a.n * b.d + b.n * a.d) * spec_add(
            a,
            b,
        )->Some_0.d,
{
    assert((a.d as int) * (b.d as int) > 0) by (nonlinear_arith)
        requires
            a.d > 0,
            b.d > 0,
    ;
    lemma_mk_rat(a.n * b.d + b.n * a.d, a.d * b.d);
}

/// A successful product is well formed and has exactly the multiplied value.
pub proof fn lemma_spec_mul(a: Rat, b: Rat)
    requires
        rat_wf(a),
        rat_wf(b),
        spec_mul(a, b) is Some,
    ensures
        rat_wf(spec_mul(a, b)->Some_0),
        spec_mul(a, b)->Some_0.n * (a.d * b.d) == (a.n * b.n) * spec_mul(a, b)->Some_0.d,
{
    assert((a.d as int) * (b.d as int) > 0) by (nonlinear_arith)
        requires
            a.d > 0,
            b.d > 0,
    ;
    lemma_mk_rat(a.n * b.n, a.d * b.d);
}

/// A successful quotient is well formed and multiplies back exactly.
pub proof fn lemma_spec_div(a: Rat, b: Rat)
    requires
        rat_wf(a),
        rat_wf(b),
        spec_div(a, b) is Some,
    ensures
        rat_wf(spec_div(a, b)->Some_0),
        b.n > 0 ==> spec_div(a, b)->Some_0.n * (a.d * b.n) == (a.n * b.d) * spec_div(
            a,
            b,
        )->Some_0.d,
        b.n < 0 ==> spec_div(a, b)->Some_0.n * (a.d * -b.n) == (-(a.n * b.d)) * spec_div(
            a,
            b,
        )->Some_0.d,
{
    if b.n > 0 {
        assert((a.d as int) * (b.n as int) > 0) by (nonlinear_arith)
            requires
                a.d > 0,
                b.n > 0,
        ;
        lemma_mk_rat(a.n * b.d, a.d * b.n);
    } else {
        assert((a.d as int) * -(b.n as int) > 0) by (nonlinear_arith)
            requires
                a.d > 0,
                b.n < 0,
        ;
        lemma_mk_rat(-(a.n * b.d), a.d * -b.n);
    }
}

/// Executable greatest common divisor.
fn gcd_u128(a0: u128, b0: u128) -> (g: u128)
    ensures
        g == gcd(a0 as int, b0 as int),
    decreases b0,
{
    if b0 == 0 {
        a0
    } else {
        gcd_u128(b0, a0 % b0)
    }
}

/// Reduce `n/d` and return it if it fits; mirrors [`mk_rat`].
pub fn reduce(n: i128, d: i128) -> (r: Option<Rat>)
    requires
        0 < d,
        n > i128::MIN,
    ensures
        r == mk_rat(n as int, d as int),
{
    let neg = n < 0;
    let a: u128 = if neg {
        (-n) as u128
    } else {
        n as u128
    };
    let g = gcd_u128(a, d as u128);
    proof {
        lemma_gcd_divides(a as int, d as int);
    }
    let a2 = a / g;
    let d2 = (d as u128) / g;
    proof {
        let gi = g as int;
        vstd::arithmetic::div_mod::lemma_fundamental_div_mod(a as int, gi);
        vstd::arithmetic::div_mod::lemma_fundamental_div_mod(d as int, gi);
        let ka = (a as int) / gi;
        let kd = (d as int) / gi;
        assert(a as int == gi * ka);
        assert(d as int == gi * kd);
        if neg {
            assert(n as int == gi * (-ka)) by (nonlinear_arith)
                requires
                    a as int == gi * ka,
                    n as int == -(a as int),
            ;
            vstd::arithmetic::div_mod::lemma_div_multiples_vanish(-ka, gi);
            assert((n as int) / gi == -ka);
        }
        assert(kd >= 1) by (nonlinear_arith)
            requires
                d as int == gi * kd,
                d > 0,
                gi > 0,
        ;
    }
    if a2 <= i64::MAX as u128 && d2 <= i64::MAX as u128 {
        let n2: i64 = if neg {
            -(a2 as i64)
        } else {
            a2 as i64
        };
        Some(Rat { n: n2, d: d2 as i64 })
    } else {
        None
    }
}

impl Rat {
    /// The reduced rational `n/d`, or `None` when it does not fit.
    pub fn new(n: i64, d: i64) -> (r: Option<Rat>)
        requires
            d > 0,
            n > i64::MIN,
        ensures
            r == mk_rat(n as int, d as int),
            r is Some ==> rat_wf(r->Some_0),
    {
        let r = reduce(n as i128, d as i128);
        proof {
            if r is Some {
                lemma_mk_rat(n as int, d as int);
            }
        }
        r
    }

    /// The rational with value `n`.
    pub fn from_i64(n: i64) -> (r: Rat)
        requires
            n > i64::MIN,
        ensures
            r == (Rat { n, d: 1 }),
            rat_wf(r),
    {
        Rat { n, d: 1 }
    }

    /// The value zero.
    pub fn zero() -> (r: Rat)
        ensures
            r == (Rat { n: 0, d: 1 }),
            rat_wf(r),
    {
        Rat { n: 0, d: 1 }
    }

    /// Exact sum, reduced; `None` when it cannot be represented.
    pub fn add(self, b: Rat) -> (r: Option<Rat>)
        requires
            rat_wf(self),
            rat_wf(b),
        ensures
            r == spec_add(self, b),
            r is Some ==> rat_wf(r->Some_0),
    {
        proof {
            lemma_i64_products_fit(self.n as int, self.d as int, b.n as int, b.d as int);
        }
        let num: i128 = (self.n as i128) * (b.d as i128) + (b.n as i128) * (self.d as i128);
        let den: i128 = (self.d as i128) * (b.d as i128);
        let r = reduce(num, den);
        proof {
            if r is Some {
                lemma_mk_rat(num as int, den as int);
            }
        }
        r
    }

    /// Exact difference, reduced; `None` when it cannot be represented.
    pub fn sub(self, b: Rat) -> (r: Option<Rat>)
        requires
            rat_wf(self),
            rat_wf(b),
        ensures
            r == spec_sub(self, b),
            r is Some ==> rat_wf(r->Some_0),
    {
        proof {
            lemma_i64_products_fit(self.n as int, self.d as int, b.n as int, b.d as int);
        }
        let num: i128 = (self.n as i128) * (b.d as i128) - (b.n as i128) * (self.d as i128);
        let den: i128 = (self.d as i128) * (b.d as i128);
        let r = reduce(num, den);
        proof {
            if r is Some {
                lemma_mk_rat(num as int, den as int);
            }
        }
        r
    }

    /// Exact product, reduced; `None` when it cannot be represented.
    pub fn mul(self, b: Rat) -> (r: Option<Rat>)
        requires
            rat_wf(self),
            rat_wf(b),
        ensures
            r == spec_mul(self, b),
            r is Some ==> rat_wf(r->Some_0),
    {
        proof {
            lemma_i64_products_fit(self.n as int, self.d as int, b.n as int, b.d as int);
        }
        let num: i128 = (self.n as i128) * (b.n as i128);
        let den: i128 = (self.d as i128) * (b.d as i128);
        let r = reduce(num, den);
        proof {
            if r is Some {
                lemma_mk_rat(num as int, den as int);
            }
        }
        r
    }

    /// Exact quotient, reduced; `None` on division by zero or overflow.
    pub fn div(self, b: Rat) -> (r: Option<Rat>)
        requires
            rat_wf(self),
            rat_wf(b),
        ensures
            r == spec_div(self, b),
            r is Some ==> rat_wf(r->Some_0),
    {
        proof {
            lemma_i64_products_fit(self.n as int, self.d as int, b.n as int, b.d as int);
        }
        if b.n == 0 {
            return None;
        }
        let num0: i128 = (self.n as i128) * (b.d as i128);
        let den0: i128 = (self.d as i128) * (b.n as i128);
        let (num, den) = if den0 < 0 {
            (-num0, -den0)
        } else {
            (num0, den0)
        };
        proof {
            if b.n < 0 {
                assert(-((self.d as int) * (b.n as int)) == (self.d as int) * -(b.n as int))
                    by (nonlinear_arith);
            }
        }
        let r = reduce(num, den);
        proof {
            if r is Some {
                lemma_mk_rat(num as int, den as int);
            }
        }
        r
    }

    /// Whether `self <= b`, by exact cross-multiplication.
    pub fn le(self, b: Rat) -> (r: bool)
        requires
            rat_wf(self),
            rat_wf(b),
        ensures
            r == rat_le(self, b),
    {
        proof {
            lemma_i64_products_fit(self.n as int, self.d as int, b.n as int, b.d as int);
        }
        (self.n as i128) * (b.d as i128) <= (b.n as i128) * (self.d as i128)
    }

    /// Whether `self < b`, by exact cross-multiplication.
    pub fn lt(self, b: Rat) -> (r: bool)
        requires
            rat_wf(self),
            rat_wf(b),
        ensures
            r == rat_lt(self, b),
    {
        proof {
            lemma_i64_products_fit(self.n as int, self.d as int, b.n as int, b.d as int);
        }
        (self.n as i128) * (b.d as i128) < (b.n as i128) * (self.d as i128)
    }

    /// Whether `self` and `b` denote the same value.
    pub fn eq_val(self, b: Rat) -> (r: bool)
        requires
            rat_wf(self),
            rat_wf(b),
        ensures
            r == rat_eq(self, b),
    {
        proof {
            lemma_i64_products_fit(self.n as int, self.d as int, b.n as int, b.d as int);
        }
        (self.n as i128) * (b.d as i128) == (b.n as i128) * (self.d as i128)
    }
}

/// Scaling a well-formed rational by `(2^k - 1) / 2^(k-1)` factors stays
/// inside `i128`.
pub proof fn lemma_scale_bounds(n: int, d: int, p2: int)
    requires
        -(i64::MAX as int) <= n <= i64::MAX as int,
        0 < d <= i64::MAX as int,
        1 <= p2 <= 0x4000_0000_0000_0000,
    ensures
        -(i128::MAX as int) < n * (2 * p2 - 1) < i128::MAX as int,
        0 < d * p2 < i128::MAX as int,
{
    let m = i64::MAX as int;
    let f = 2 * p2 - 1;
    assert(-(m * m) <= n * f <= m * m) by (nonlinear_arith)
        requires
            -m <= n <= m,
            1 <= f <= m,
    ;
    assert(0 < d * p2 <= m * m) by (nonlinear_arith)
        requires
            0 < d <= m,
            1 <= p2 <= m,
    ;
}

/// Products of two `i64` factors fit comfortably inside `i128`.
proof fn lemma_i64_products_fit(an: int, ad: int, bn: int, bd: int)
    requires
        -(i64::MAX as int) <= an <= i64::MAX as int,
        0 < ad <= i64::MAX as int,
        -(i64::MAX as int) <= bn <= i64::MAX as int,
        0 < bd <= i64::MAX as int,
    ensures
        -(i128::MAX as int) < an * bd + bn * ad < i128::MAX as int,
        -(i128::MAX as int) < an * bd - bn * ad < i128::MAX as int,
        -(i128::MAX as int) < an * bn < i128::MAX as int,
        0 < ad * bd < i128::MAX as int,
        -(i128::MAX as int) < an * bd < i128::MAX as int,
        -(i128::MAX as int) < bn * ad < i128::MAX as int,
        -(i128::MAX as int) < ad * bn < i128::MAX as int,
        bn < 0 ==> ad * bn < 0,
        bn > 0 ==> ad * bn > 0,
{
    let m = i64::MAX as int;
    assert(-(m * m) <= an * bd <= m * m) by (nonlinear_arith)
        requires
            -m <= an <= m,
            0 < bd <= m,
    ;
    assert(-(m * m) <= bn * ad <= m * m) by (nonlinear_arith)
        requires
            -m <= bn <= m,
            0 < ad <= m,
    ;
    assert(-(m * m) <= an * bn <= m * m) by (nonlinear_arith)
        requires
            -m <= an <= m,
            -m <= bn <= m,
    ;
    assert(0 < ad * bd <= m * m) by (nonlinear_arith)
        requires
            0 < ad <= m,
            0 < bd <= m,
    ;
    assert(-(m * m) <= ad * bn <= m * m) by (nonlinear_arith)
        requires
            -m <= bn <= m,
            0 < ad <= m,
    ;
    assert(bn < 0 ==> ad * bn < 0) by (nonlinear_arith)
        requires
            0 < ad,
    ;
    assert(bn > 0 ==> ad * bn > 0) by (nonlinear_arith)
        requires
            0 < ad,
    ;
}

} // verus!
