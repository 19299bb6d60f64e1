//! Exact scalar values for the expression graph.
//!
//! A value is stored as an unreduced fraction `num / den` of 128-bit
//! integers. A zero denominator encodes the non-finite outcomes of
//! degenerate arithmetic (division by zero, results too large to store):
//! `num` is then `1` for positive infinity, `-1` for negative infinity and
//! `0` for "not a number", so degeneracies propagate through further
//! arithmetic instead of being treated as errors.

use vstd::prelude::*;

verus! {

/// Largest magnitude that a stored numerator or denominator may have.
/// Keeping both factors within this bound lets every raw product of two
/// stored fields fit comfortably in an `i128`.
pub const RAT_BOUND: i128 = 9223372036854775807;

/// An exact scalar: the rational number `num / den`, with `den == 0`
/// marking a non-finite value.
#[derive(Clone, Copy, Debug)]
pub struct Rat {
    pub num: i128,
    pub den: i128,
}

/// Well-formed scalars: bounded fields, a non-negative denominator, and a
/// bare sign marker as numerator when the value is non-finite.
pub open spec fn rat_wf(r: Rat) -> bool {
    &&& -RAT_BOUND <= r.num <= RAT_BOUND
    &&& 0 <= r.den <= RAT_BOUND
    &&& r.den == 0 ==> -1 <= r.num <= 1
}

/// The greatest common divisor by Euclid's algorithm; `spec_gcd(a, 0)` is
/// `a` itself.
pub open spec fn spec_gcd(a: int, b: int) -> int
    decreases b,
{
    if b <= 0 {
        a
    } else {
        spec_gcd(b, a % b)
    }
}

/// Normalisation of a raw numerator/denominator pair: the sign moves to
/// the numerator and a zero denominator collapses the numerator to its
/// sign. A pair small enough to store is kept as it is, unreduced; one too
/// large is first reduced by the greatest common divisor, and becomes "not
/// a number" only if it still does not fit.
pub open spec fn spec_norm(n: int, d: int) -> Rat {
    if d == 0 {
        Rat { num: if n > 0 { 1i128 } else if n < 0 { -1i128 } else { 0i128 }, den: 0 }
    } else {
        let n1 = if d < 0 {
            -n
        } else {
            n
        };
        let d1 = if d < 0 {
            -d
        } else {
            d
        };
        if -RAT_BOUND <= n1 <= RAT_BOUND && d1 <= RAT_BOUND {
            Rat { num: n1 as i128, den: d1 as i128 }
        } else {
            let m = if n1 < 0 {
                -n1
            } else {
                n1
            };
            let g = spec_gcd(m, d1);
            let m2 = m / g;
            let d2 = d1 / g;
            let n2 = if n1 < 0 {
                -m2
            } else {
                m2
            };
            if -RAT_BOUND <= n2 <= RAT_BOUND && 0 < d2 <= RAT_BOUND {
                Rat { num: n2 as i128, den: d2 as i128 }
            } else {
                Rat { num: 0, den: 0 }
            }
        }
    }
}

/// The greatest common divisor of a non-negative and a positive number is
/// positive.
proof fn lemma_gcd_pos(a: int, b: int)
    requires
        a >= 0,
        b >= 0,
        a >= 1 || b >= 1,
    ensures
        spec_gcd(a, b) >= 1,
    decreases b,
{
    if b >= 1 {
        lemma_gcd_pos(b, a % b);
    }
}

/// The zero scalar.
pub open spec fn rat_zero() -> Rat {
    Rat { num: 0, den: 1 }
}

/// The unit scalar, the seed of every backward pass.
pub open spec fn rat_one() -> Rat {
    Rat { num: 1, den: 1 }
}

/// True of a scalar whose fields are small enough to compare by
/// cross-multiplication.
pub open spec fn rat_bounded(r: Rat) -> bool {
    &&& -RAT_BOUND <= r.num <= RAT_BOUND
    &&& 0 <= r.den <= RAT_BOUND
}

/// Equality of scalars: cross-multiplication where the fields are bounded
/// (so unreduced fractions of the same value are equal), raw field equality
/// otherwise. Well-formed scalars are always bounded.
pub open spec fn rat_eq(a: Rat, b: Rat) -> bool {
    if rat_bounded(a) && rat_bounded(b) {
        a.num * b.den == b.num * a.den
    } else {
        a == b
    }
}

/// The exact sum, over the usual fraction formula, then normalised.
pub open spec fn spec_add(a: Rat, b: Rat) -> Rat {
    spec_norm(a.num * b.den + b.num * a.den, a.den * b.den)
}

/// The exact difference, then normalised.
pub open spec fn spec_sub(a: Rat, b: Rat) -> Rat {
    spec_norm(a.num * b.den - b.num * a.den, a.den * b.den)
}

/// The exact product, then normalised.
pub open spec fn spec_mul(a: Rat, b: Rat) -> Rat {
    spec_norm(a.num * b.num, a.den * b.den)
}

/// The exact quotient, then normalised. Division by zero yields an
/// infinity or "not a number" through the zero denominator of the raw pair.
pub open spec fn spec_div(a: Rat, b: Rat) -> Rat {
    spec_norm(a.num * b.den, a.den * b.num)
}

/// A product of two factors bounded by `b` stays within `b * b`.
proof fn lemma_mul_bound(x: int, y: int, b: int)
    requires
        -b <= x <= b,
        -b <= y <= b,
        0 <= b,
    ensures
        -(b * b) <= x * y <= b * b,
{
    assert(-(b * b) <= x * y <= b * b) by (nonlinear_arith)
        requires
            -b <= x <= b,
            -b <= y <= b,
            0 <= b,
    ;
}

impl Rat {
    /// The greatest common divisor, for reducing a raw pair that is too
    /// large to store.
    fn gcd(a0: i128, b0: i128) -> (g: i128)
        requires
            a0 >= 0,
            b0 >= 1,
        ensures
            g == spec_gcd(a0 as int, b0 as int),
            g >= 1,
    {
        proof {
            lemma_gcd_pos(a0 as int, b0 as int);
        }
        let mut a: i128 = a0;
        let mut b: i128 = b0;
        while b != 0
            invariant
                a >= 0,
                b >= 0,
            spec_gcd(a as int, b as int) == spec_gcd(a0 as int, b0 as int),
            decreases b,
        {
            let t = a % b;
            a = b;
            b = t;
        }
        a
    }

    /// Normalise a raw pair into a well-formed scalar.
    fn norm(n: i128, d: i128) -> (r: Rat)
        requires
            n > i128::MIN,
            d > i128::MIN,
        ensures
            r == spec_norm(n as int, d as int),
            rat_wf(r),
    {
        if d == 0 {
            if n > 0 {
                Rat { num: 1, den: 0 }
            } else if n < 0 {
                Rat { num: -1, den: 0 }
            } else {
                Rat { num: 0, den: 0 }
            }
        } else {
            let nn: i128 = if d < 0 { -n } else { n };
            let dd: i128 = if d < 0 { -d } else { d };
            if -RAT_BOUND <= nn && nn <= RAT_BOUND && dd <= RAT_BOUND {
                Rat { num: nn, den: dd }
            } else {
                let m: i128 = if nn < 0 { -nn } else { nn };
                let g = Rat::gcd(m, dd);
                let m2 = m / g;
                let d2 = dd / g;
                let n2: i128 = if nn < 0 { -m2 } else { m2 };
                if -RAT_BOUND <= n2 && n2 <= RAT_BOUND && 0 < d2 && d2 <= RAT_BOUND {
                    Rat { num: n2, den: d2 }
                } else {
                    Rat { num: 0, den: 0 }
                }
            }
        }
    }

    /// Build a scalar from a numerator and a denominator.
    pub fn new(num: i64, den: i64) -> (r: Rat)
        ensures
            r == spec_norm(num as int, den as int),
            rat_wf(r),
    {
        Rat::norm(num as i128, den as i128)
    }

    /// Build a scalar from decimal parts, the shape in which scalar inputs
    /// arrive: a sign, a whole part, a fractional part and the number of
    /// fractional digits. More than 18 digits cannot be represented and
    /// yield "not a number".
    pub fn from_decimal(negative: bool, int_part: u32, frac: u32, digits: u32) -> (r: Rat)
        ensures
            digits <= 18 ==> r == spec_norm(
                if negative {
                    -(int_part * pow10(digits as nat) + frac)
                } else {
                    int_part * pow10(digits as nat) + frac
                },
                pow10(digits as nat),
            ),
            digits > 18 ==> r == (Rat { num: 0, den: 0 }),
            rat_wf(r),
    {
        if digits > 18 {
            return Rat { num: 0, den: 0 };
        }
        let mut p: i128 = 1;
        let mut k: u32 = 0;
        while k < digits
            invariant
                k <= digits,
                digits <= 18,
                p == pow10(k as nat),
                1 <= p <= 1000000000000000000,
            decreases digits - k,
        {
            proof {
                lemma_pow10_bound(k as nat + 1);
            }
            p = p * 10;
            k = k + 1;
        }
        proof {
            lemma_pow10_bound(digits as nat);
            lemma_mul_bound(int_part as int, p as int, 1000000000000000000);
        }
        let raw: i128 = (int_part as i128) * p + (frac as i128);
        let n: i128 = if negative { -raw } else { raw };
        Rat::norm(n, p)
    }

    /// The zero scalar.
    pub fn zero() -> (r: Rat)
        ensures
            r == rat_zero(),
            rat_wf(r),
    {
        Rat { num: 0, den: 1 }
    }

    /// The unit scalar.
    pub fn one() -> (r: Rat)
        ensures
            r == rat_one(),
            rat_wf(r),
    {
        Rat { num: 1, den: 1 }
    }

    /// The numerator, for callers that read the value out.
    pub fn numerator(&self) -> (n: i128)
        ensures
            n == self.num,
    {
        self.num
    }

    /// The denominator; zero marks a non-finite value.
    pub fn denominator(&self) -> (d: i128)
        ensures
            d == self.den,
    {
        self.den
    }

    /// True of a finite value.
    pub fn is_finite(&self) -> (r: bool)
        ensures
            r == (self.den != 0),
    {
        self.den != 0
    }

    /// The exact sum of two scalars.
    pub fn add(self, other: Rat) -> (r: Rat)
        requires
            rat_wf(self),
            rat_wf(other),
        ensures
            r == spec_add(self, other),
            rat_wf(r),
    {
        proof {
            lemma_mul_bound(self.num as int, other.den as int, RAT_BOUND as int);
            lemma_mul_bound(other.num as int, self.den as int, RAT_BOUND as int);
            lemma_mul_bound(self.den as int, other.den as int, RAT_BOUND as int);
        }
        Rat::norm(self.num * other.den + other.num * self.den, self.den * other.den)
    }

    /// The exact difference of two scalars.
    pub fn sub(self, other: Rat) -> (r: Rat)
        requires
            rat_wf(self),
            rat_wf(other),
        ensures
            r == spec_sub(self, other),
            rat_wf(r),
    {
        proof {
            lemma_mul_bound(self.num as int, other.den as int, RAT_BOUND as int);
            lemma_mul_bound(other.num as int, self.den as int, RAT_BOUND as int);
            lemma_mul_bound(self.den as int, other.den as int, RAT_BOUND as int);
        }
        Rat::norm(self.num * other.den - other.num * self.den, self.den * other.den)
    }

    /// The exact product of two scalars.
    pub fn mul(self, other: Rat) -> (r: Rat)
        requires
            rat_wf(self),
            rat_wf(other),
        ensures
            r == spec_mul(self, other),
            rat_wf(r),
    {
        proof {
            lemma_mul_bound(self.num as int, other.num as int, RAT_BOUND as int);
            lemma_mul_bound(self.den as int, other.den as int, RAT_BOUND as int);
        }
        Rat::norm(self.num * other.num, self.den * other.den)
    }

    /// The exact quotient of two scalars. Division by zero is not an error:
    /// it yields an infinity or "not a number", which later arithmetic
    /// propagates.
    pub fn div(self, other: Rat) -> (r: Rat)
        requires
            rat_wf(self),
            rat_wf(other),
        ensures
            r == spec_div(self, other),
            rat_wf(r),
    {
        proof {
            lemma_mul_bound(self.num as int, other.den as int, RAT_BOUND as int);
            lemma_mul_bound(self.den as int, other.num as int, RAT_BOUND as int);
        }
        Rat::norm(self.num * other.den, self.den * other.num)
    }
}

impl PartialEq for Rat {
    /// Value equality: cross-multiplication for bounded scalars, raw field
    /// equality for pairs too large to multiply safely (which well-formed
    /// scalars never are).
    fn eq(&self, other: &Rat) -> (r: bool) {
        let sb = -RAT_BOUND <= self.num && self.num <= RAT_BOUND && 0 <= self.den && self.den
            <= RAT_BOUND;
        let ob = -RAT_BOUND <= other.num && other.num <= RAT_BOUND && 0 <= other.den && other.den
            <= RAT_BOUND;
        if sb && ob {
            proof {
                lemma_mul_bound(self.num as int, other.den as int, RAT_BOUND as int);
                lemma_mul_bound(other.num as int, self.den as int, RAT_BOUND as int);
            }
            self.num * other.den == other.num * self.den
        } else {
            self.num == other.num && self.den == other.den
        }
    }
}

impl vstd::std_specs::cmp::PartialEqSpecImpl for Rat {
    open spec fn obeys_eq_spec() -> bool {
        true
    }

    open spec fn eq_spec(&self, other: &Rat) -> bool {
        rat_eq(*self, *other)
    }
}

/// Ten to the given power.
pub open spec fn pow10(k: nat) -> int
    decreases k,
{
    if k == 0 {
        1
    } else {
        10 * pow10((k - 1) as nat)
    }
}

/// Up to the eighteenth power, ten to the power fits well within the
/// storable range.
proof fn lemma_pow10_bound(k: nat)
    requires
        k <= 18,
    ensures
        1 <= pow10(k) <= 1000000000000000000,
{
    lemma_pow10_pos(k);
    lemma_pow10_mono(k, 18);
    assert(pow10(18) == 1000000000000000000) by {
        reveal_with_fuel(pow10, 20);
    }
}

/// Ten to any power is at least one.
proof fn lemma_pow10_pos(k: nat)
    ensures
        1 <= pow10(k),
    decreases k,
{
    if k > 0 {
        lemma_pow10_pos((k - 1) as nat);
    }
}

/// Ten to the power is monotone in the exponent.
proof fn lemma_pow10_mono(j: nat, k: nat)
    requires
        j <= k,
    ensures
        pow10(j) <= pow10(k),
        1 <= pow10(j),
    decreases k,
{
    lemma_pow10_pos(j);
    if j < k {
        lemma_pow10_mono(j, (k - 1) as nat);
        lemma_pow10_pos((k - 1) as nat);
        assert(pow10(k) == 10 * pow10((k - 1) as nat));
        assert(pow10((k - 1) as nat) <= 10 * pow10((k - 1) as nat)) by (nonlinear_arith)
            requires
                1 <= pow10((k - 1) as nat),
        ;
    }
}

} // verus!
