use vstd::prelude::*;

verus! {

/// An exact rational number `num / den`, kept with a positive denominator and
/// reduced by the greatest common divisor of its parts.
#[derive(Clone, Copy, Debug, PartialEq, Eq)]
pub struct Number {
    num: i64,
    den: i64,
}

/// `n` is representable as an `i64`.
pub open spec fn fits_i64(n: int) -> bool {
    i64::MIN <= n <= i64::MAX
}

/// `n / d` and `m / e` denote the same rational (for non-zero denominators).
pub open spec fn same_ratio(n: int, d: int, m: int, e: int) -> bool {
    n * e == m * d
}

impl Number {
    #[verifier::type_invariant]
    spec fn positive_denominator(self) -> bool {
        self.den > 0
    }

    /// The numerator of the stored fraction.
    pub closed spec fn numer(self) -> int {
        self.num as int
    }

    /// The (positive) denominator of the stored fraction.
    pub closed spec fn denom(self) -> int {
        self.den as int
    }

    /// `self` denotes the rational `n / d`.
    pub open spec fn denotes(self, n: int, d: int) -> bool {
        same_ratio(self.numer(), self.denom(), n, d)
    }

    /// The integer `value` as a number.
    pub fn from_int(value: i64) -> (r: Number)
        ensures
            r.numer() == value,
            r.denom() == 1,
    {
        Number { num: value, den: 1 }
    }

    /// The numerator of the stored fraction.
    pub fn numerator(&self) -> (r: i64)
        ensures
            r == self.numer(),
    {
        self.num
    }

    /// The denominator of the stored fraction.
    pub fn denominator(&self) -> (r: i64)
        ensures
            r == self.denom(),
            r > 0,
    {
        proof {
            use_type_invariant(self);
        }
        self.den
    }

    /// Builds `num / den` reduced to lowest terms; `None` when the reduced
    /// fraction does not fit in `i64`, which can only happen when `num / den`
    /// itself does not.
    pub fn from_ratio(num: i128, den: i128) -> (r: Option<Number>)
        requires
            den > 0,
            num > i128::MIN,
        ensures
            r matches Some(x) ==> x.denotes(num as int, den as int),
            r is None ==> !(fits_i64(num as int) && fits_i64(den as int)),
    {
        let neg = num < 0;
        let a: i128 = if neg {
            -num
        } else {
            num
        };
        let g = gcd(a, den);
        let (ra, rd) = if a % g == 0 && den % g == 0 {
            proof {
                lemma_reduce_nonneg(a as int, g as int);
                lemma_reduce_nonneg(den as int, g as int);
            }
            (a / g, den / g)
        } else {
            (a, den)
        };
        proof {
            assert(ra * den == a * rd) by (nonlinear_arith)
                requires
                    (ra == a && rd == den) || (a == ra * g && den == rd * g),
            ;
        }
        let n: i128 = if neg {
            -ra
        } else {
            ra
        };
        proof {
            assert(n * den == num * rd) by (nonlinear_arith)
                requires
                    ra * den == a * rd,
                    (neg && n == -ra && num == -a) || (!neg && n == ra && num == a),
            ;
        }
        if n < i64::MIN as i128 || n > i64::MAX as i128 || rd > i64::MAX as i128 || rd <= 0 {
            None
        } else {
            Some(Number { num: n as i64, den: rd as i64 })
        }
    }

    /// Exact sum; `None` on overflow of the unreduced fraction.
    pub fn checked_add(&self, other: &Number) -> (r: Option<Number>)
        ensures
            r matches Some(x) ==> x.denotes(
                self.numer() * other.denom() + other.numer() * self.denom(),
                self.denom() * other.denom(),
            ),
            r is None ==> !(fits_i64(self.numer() * other.denom() + other.numer() * self.denom())
                && fits_i64(self.denom() * other.denom())),
    {
        proof {
            use_type_invariant(self);
            use_type_invariant(other);
            lemma_products_bounded(self.num as int, other.den as int, other.num as int, self.den as int);
        }
        let n = (self.num as i128) * (other.den as i128) + (other.num as i128) * (self.den as i128);
        let d = (self.den as i128) * (other.den as i128);
        Number::from_ratio(n, d)
    }

    /// Exact difference; `None` on overflow of the unreduced fraction.
    pub fn checked_sub(&self, other: &Number) -> (r: Option<Number>)
        ensures
            r matches Some(x) ==> x.denotes(
                self.numer() * other.denom() - other.numer() * self.denom(),
                self.denom() * other.denom(),
            ),
            r is None ==> !(fits_i64(self.numer() * other.denom() - other.numer() * self.denom())
                && fits_i64(self.denom() * other.denom())),
    {
        proof {
            use_type_invariant(self);
            use_type_invariant(other);
            lemma_products_bounded(self.num as int, other.den as int, other.num as int, self.den as int);
        }
        let n = (self.num as i128) * (other.den as i128) - (other.num as i128) * (self.den as i128);
        let d = (self.den as i128) * (other.den as i128);
        Number::from_ratio(n, d)
    }

    /// Exact product; `None` on overflow of the unreduced fraction.
    pub fn checked_mul(&self, other: &Number) -> (r: Option<Number>)
        ensures
            r matches Some(x) ==> x.denotes(
                self.numer() * other.numer(),
                self.denom() * other.denom(),
            ),
            r is None ==> !(fits_i64(self.numer() * other.numer()) && fits_i64(
                self.denom() * other.denom(),
            )),
    {
        proof {
            use_type_invariant(self);
            use_type_invariant(other);
            lemma_product_bounded(self.num as int, other.num as int);
            lemma_product_bounded(self.den as int, other.den as int);
        }
        let n = (self.num as i128) * (other.num as i128);
        let d = (self.den as i128) * (other.den as i128);
        proof {
            assert(d > 0) by (nonlinear_arith)
                requires
                    d == self.den * other.den,
                    self.den > 0,
                    other.den > 0,
            ;
        }
        Number::from_ratio(n, d)
    }

    /// Exact quotient of two numbers, the divisor being non-zero; `None` on
    /// overflow of the unreduced fraction (sign moved to the numerator).
    pub fn checked_div(&self, other: &Number) -> (r: Option<Number>)
        requires
            other.numer() != 0,
        ensures
            r matches Some(x) ==> x.denotes(
                self.numer() * other.denom(),
                self.denom() * other.numer(),
            ),
            r is None ==> {
                let n = self.numer() * other.denom();
                let d = self.denom() * other.numer();
                if d < 0 {
                    !(fits_i64(-n) && fits_i64(-d))
                } else {
                    !(fits_i64(n) && fits_i64(d))
                }
            },
    {
        proof {
            use_type_invariant(self);
            use_type_invariant(other);
            lemma_product_bounded(self.num as int, other.den as int);
            lemma_product_bounded(self.den as int, other.num as int);
        }
        let mut n = (self.num as i128) * (other.den as i128);
        let mut d = (self.den as i128) * (other.num as i128);
        proof {
            assert(d != 0) by (nonlinear_arith)
                requires
                    d == self.den * other.num,
                    self.den > 0,
                    other.num != 0,
            ;
            assert(n > i128::MIN) by (nonlinear_arith)
                requires
                    n == self.num * other.den,
                    i64::MIN <= self.num <= i64::MAX,
                    0 < other.den <= i64::MAX,
            ;
        }
        if d < 0 {
            proof {
                assert(same_ratio(-n, -d, n as int, d as int)) by (nonlinear_arith);
            }
            n = -n;
            d = -d;
        }
        let r = Number::from_ratio(n, d);
        proof {
            if let Some(x) = r {
                assert(same_ratio(n as int, d as int, self.numer() * other.denom(), self.denom() * other.numer()));
                lemma_same_ratio_transitive(
                    x.numer(),
                    x.denom(),
                    n as int,
                    d as int,
                    self.numer() * other.denom(),
                    self.denom() * other.numer(),
                );
            }
        }
        r
    }

    /// Negation; `None` only for the one numerator with no negation in `i64`.
    pub fn checked_neg(&self) -> (r: Option<Number>)
        ensures
            r matches Some(x) ==> x.numer() == -self.numer() && x.denom() == self.denom(),
            r is None <==> self.numer() == i64::MIN,
    {
        proof {
            use_type_invariant(self);
        }
        if self.num == i64::MIN {
            None
        } else {
            Some(Number { num: -self.num, den: self.den })
        }
    }

    /// The number is zero.
    pub fn is_zero(&self) -> (r: bool)
        ensures
            r == (self.numer() == 0),
    {
        self.num == 0
    }

    /// Rational equality.
    pub fn same_value(&self, other: &Number) -> (r: bool)
        ensures
            r == same_ratio(self.numer(), self.denom(), other.numer(), other.denom()),
    {
        proof {
            lemma_product_bounded(self.num as int, other.den as int);
            lemma_product_bounded(other.num as int, self.den as int);
        }
        (self.num as i128) * (other.den as i128) == (other.num as i128) * (self.den as i128)
    }

    /// Rational strict order.
    pub fn less_than(&self, other: &Number) -> (r: bool)
        ensures
            r == (self.numer() * other.denom() < other.numer() * self.denom()),
    {
        proof {
            lemma_product_bounded(self.num as int, other.den as int);
            lemma_product_bounded(other.num as int, self.den as int);
        }
        (self.num as i128) * (other.den as i128) < (other.num as i128) * (self.den as i128)
    }
}

/// `d` divides `x`.
pub open spec fn divides(d: int, x: int) -> bool {
    x % d == 0
}

/// Greatest common divisor by Euclid's algorithm: a positive divisor of
/// both that every common divisor divides.
pub fn gcd(a: i128, b: i128) -> (g: i128)
    requires
        a >= 0,
        b > 0,
    ensures
        0 < g <= b,
        a % g == 0,
        b % g == 0,
        forall|d: int| d > 0 && divides(d, a as int) && divides(d, b as int) ==> #[trigger] divides(d, g as int),
    decreases b,
{
    let r = a % b;
    if r == 0 {
        proof {
            vstd::arithmetic::div_mod::lemma_mod_self_0(b as int);
        }
        b
    } else {
        let g = gcd(b, r);
        proof {
            lemma_divides_step(a as int, b as int, g as int);
            assert forall|d: int| d > 0 && divides(d, a as int) && divides(d, b as int) implies #[trigger] divides(
                d,
                g as int,
            ) by {
                lemma_divides_step_back(a as int, b as int, d);
            }
        }
        g
    }
}

/// A divisor of `b` and `a % b` divides `a`.
proof fn lemma_divides_step(a: int, b: int, g: int)
    requires
        a >= 0,
        b > 0,
        g > 0,
        b % g == 0,
        (a % b) % g == 0,
    ensures
        a % g == 0,
{
    vstd::arithmetic::div_mod::lemma_fundamental_div_mod(a, b);
    vstd::arithmetic::div_mod::lemma_fundamental_div_mod(b, g);
    vstd::arithmetic::div_mod::lemma_fundamental_div_mod(a % b, g);
    let k = (b / g) * (a / b) + (a % b) / g;
    assert(a == g * k) by (nonlinear_arith)
        requires
            a == b * (a / b) + a % b,
            b == g * (b / g) + 0,
            a % b == g * ((a % b) / g) + 0,
            k == (b / g) * (a / b) + (a % b) / g,
    ;
    vstd::arithmetic::div_mod::lemma_mod_multiples_basic(k, g);
    assert(k * g == g * k) by (nonlinear_arith);
}

/// A divisor of `a` and `b` divides `a % b`.
proof fn lemma_divides_step_back(a: int, b: int, d: int)
    requires
        a >= 0,
        b > 0,
        d > 0,
        a % d == 0,
        b % d == 0,
    ensures
        (a % b) % d == 0,
{
    vstd::arithmetic::div_mod::lemma_fundamental_div_mod(a, b);
    vstd::arithmetic::div_mod::lemma_fundamental_div_mod(a, d);
    vstd::arithmetic::div_mod::lemma_fundamental_div_mod(b, d);
    let k = a / d - (b / d) * (a / b);
    assert(a % b == d * k) by (nonlinear_arith)
        requires
            a == b * (a / b) + a % b,
            a == d * (a / d) + 0,
            b == d * (b / d) + 0,
            k == a / d - (b / d) * (a / b),
    ;
    vstd::arithmetic::div_mod::lemma_mod_multiples_basic(k, d);
    assert(k * d == d * k) by (nonlinear_arith);
}

proof fn lemma_reduce_nonneg(x: int, g: int)
    requires
        x >= 0,
        g > 0,
        x % g == 0,
    ensures
        (x / g) * g == x,
        0 <= x / g <= x,
        x > 0 ==> x / g > 0,
{
    vstd::arithmetic::div_mod::lemma_fundamental_div_mod(x, g);
    vstd::arithmetic::mul::lemma_mul_is_commutative(x / g, g);
    vstd::arithmetic::div_mod::lemma_div_pos_is_pos(x, g);
    vstd::arithmetic::div_mod::lemma_div_is_ordered_by_denominator(x, 1, g);
    if x > 0 && x / g == 0 {
        assert(0int * g == 0);
    }
}

proof fn lemma_product_bounded(a: int, b: int)
    requires
        fits_i64(a),
        fits_i64(b),
    ensures
        -0x4000_0000_0000_0000_0000_0000_0000_0000 <= a * b <= 0x4000_0000_0000_0000_0000_0000_0000_0000,
{
    assert(-0x4000_0000_0000_0000_0000_0000_0000_0000 <= a * b <= 0x4000_0000_0000_0000_0000_0000_0000_0000)
        by (nonlinear_arith)
        requires
            i64::MIN <= a <= i64::MAX,
            i64::MIN <= b <= i64::MAX,
    ;
}

proof fn lemma_products_bounded(a: int, b: int, c: int, d: int)
    requires
        fits_i64(a),
        fits_i64(b),
        fits_i64(c),
        fits_i64(d),
        b > 0,
        d > 0,
    ensures
        i128::MIN < a * b + c * d <= i128::MAX,
        i128::MIN < a * b - c * d <= i128::MAX,
        0 < b * d <= i128::MAX,
{
    assert(-0x3fff_ffff_ffff_ffff_8000_0000_0000_0000 <= a * b <= 0x3fff_ffff_ffff_ffff_8000_0000_0000_0000)
        by (nonlinear_arith)
        requires
            i64::MIN <= a <= i64::MAX,
            0 < b <= i64::MAX,
    ;
    assert(-0x3fff_ffff_ffff_ffff_8000_0000_0000_0000 <= c * d <= 0x3fff_ffff_ffff_ffff_8000_0000_0000_0000)
        by (nonlinear_arith)
        requires
            i64::MIN <= c <= i64::MAX,
            0 < d <= i64::MAX,
    ;
    lemma_product_bounded(b, d);
    assert(b * d > 0) by (nonlinear_arith)
        requires
            b > 0,
            d > 0,
    ;
}

proof fn lemma_same_ratio_transitive(a: int, b: int, c: int, d: int, e: int, f: int)
    requires
        same_ratio(a, b, c, d),
        same_ratio(c, d, e, f),
        d != 0,
    ensures
        same_ratio(a, b, e, f),
{
    assert(a * f * d == e * b * d) by (nonlinear_arith)
        requires
            a * d == c * b,
            c * f == e * d,
    ;
    assert(a * f == e * b) by (nonlinear_arith)
        requires
            a * f * d == e * b * d,
            d != 0,
    ;
}

} // verus!
