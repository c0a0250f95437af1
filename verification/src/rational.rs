//! Exact rational numbers over `i128`, with overflow-checked arithmetic.

use vstd::prelude::*;

verus! {

/// An exact rational number `num / den`.
///
/// A value is well formed (`wf`) when its denominator is positive; every
/// rational value has such a representation.  The arithmetic methods report
/// their result through `Option`: `None` exactly when a step of the
/// computation leaves the `i128` range.  Representations are not reduced to
/// lowest terms; two values denote the same rational when `rat_eq` holds of
/// their views.
#[derive(Clone, Copy, Debug, PartialEq, Eq, Structural)]
pub struct Rational {
    pub num: i128,
    pub den: i128,
}

impl View for Rational {
    type V = (int, int);

    open spec fn view(&self) -> (int, int) {
        (self.num as int, self.den as int)
    }
}

/// The view of an optional rational, for pinning checked results.
pub open spec fn opt_view(r: Option<Rational>) -> Option<(int, int)> {
    match r {
        Some(v) => Some(v@),
        None => None,
    }
}

/// Whether a mathematical integer fits in `i128`.
pub open spec fn fits_i128(x: int) -> bool {
    i128::MIN <= x <= i128::MAX
}

/// A well-formed representation: positive denominator.
pub open spec fn rat_wf(a: (int, int)) -> bool {
    a.1 > 0
}

/// The two representations denote the same rational number.
/// Meaningful whenever both denominators are nonzero.
pub open spec fn rat_eq(a: (int, int), b: (int, int)) -> bool {
    a.0 * b.1 == b.0 * a.1
}

/// `a` denotes a strictly smaller rational than `b`.
/// Meaningful whenever both denominators are positive.
pub open spec fn rat_lt(a: (int, int), b: (int, int)) -> bool {
    a.0 * b.1 < b.0 * a.1
}

/// Exact rational sum.
pub open spec fn rat_add(a: (int, int), b: (int, int)) -> (int, int) {
    (a.0 * b.1 + b.0 * a.1, a.1 * b.1)
}

/// Exact rational difference.
pub open spec fn rat_sub(a: (int, int), b: (int, int)) -> (int, int) {
    (a.0 * b.1 - b.0 * a.1, a.1 * b.1)
}

/// Exact rational product.
pub open spec fn rat_mul(a: (int, int), b: (int, int)) -> (int, int) {
    (a.0 * b.0, a.1 * b.1)
}

/// Exact rational quotient, as cross multiplication.  Dividing by a
/// representation with numerator zero yields a zero denominator.
pub open spec fn rat_div(a: (int, int), b: (int, int)) -> (int, int) {
    (a.0 * b.1, a.1 * b.0)
}

/// `rat_add` under `i128` overflow checking, mirroring `Rational::add`:
/// the exact sum, or `None` when an intermediate product, the summed
/// numerator, or the denominator leaves the `i128` range.
pub open spec fn checked_rat_add(a: (int, int), b: (int, int)) -> Option<(int, int)> {
    if fits_i128(a.0 * b.1) && fits_i128(b.0 * a.1) && fits_i128(a.0 * b.1 + b.0 * a.1)
        && fits_i128(a.1 * b.1) {
        Some(rat_add(a, b))
    } else {
        None
    }
}

/// `rat_sub` under `i128` overflow checking, mirroring `Rational::sub`.
pub open spec fn checked_rat_sub(a: (int, int), b: (int, int)) -> Option<(int, int)> {
    if fits_i128(a.0 * b.1) && fits_i128(b.0 * a.1) && fits_i128(a.0 * b.1 - b.0 * a.1)
        && fits_i128(a.1 * b.1) {
        Some(rat_sub(a, b))
    } else {
        None
    }
}

/// `rat_mul` under `i128` overflow checking, mirroring `Rational::mul`.
pub open spec fn checked_rat_mul(a: (int, int), b: (int, int)) -> Option<(int, int)> {
    if fits_i128(a.0 * b.0) && fits_i128(a.1 * b.1) {
        Some(rat_mul(a, b))
    } else {
        None
    }
}

/// `rat_div` under `i128` overflow checking, mirroring `Rational::div`.
pub open spec fn checked_rat_div(a: (int, int), b: (int, int)) -> Option<(int, int)> {
    if fits_i128(a.0 * b.1) && fits_i128(a.1 * b.0) {
        Some(rat_div(a, b))
    } else {
        None
    }
}

/// `rat_lt` under `i128` overflow checking, mirroring `Rational::lt`.
pub open spec fn checked_rat_lt(a: (int, int), b: (int, int)) -> Option<bool> {
    if fits_i128(a.0 * b.1) && fits_i128(b.0 * a.1) {
        Some(rat_lt(a, b))
    } else {
        None
    }
}

/// `rat_eq` under `i128` overflow checking, mirroring `Rational::eq_value`.
pub open spec fn checked_rat_eq(a: (int, int), b: (int, int)) -> Option<bool> {
    if fits_i128(a.0 * b.1) && fits_i128(b.0 * a.1) {
        Some(rat_eq(a, b))
    } else {
        None
    }
}

/// Sign normalization, mirroring `Rational::norm_sign`: flips both signs
/// when the denominator is negative, so that a nonzero denominator becomes
/// positive; `None` when a flipped component leaves the `i128` range.
pub open spec fn checked_rat_norm(a: (int, int)) -> Option<(int, int)> {
    if a.1 < 0 {
        if fits_i128(-a.0) && fits_i128(-a.1) {
            Some((-a.0, -a.1))
        } else {
            None
        }
    } else {
        Some(a)
    }
}

/// The result of `Rational::new`, mirroring its sign normalization.
pub open spec fn spec_new(n: int, d: int) -> Option<(int, int)> {
    if d == 0 {
        None
    } else {
        checked_rat_norm((n, d))
    }
}

impl Rational {
    /// Positive denominator: the canonical well-formed representation.
    pub open spec fn wf(self) -> bool {
        rat_wf(self@)
    }

    /// The rational `n / 1`.
    pub fn from_int(n: i128) -> (r: Rational)
        ensures
            r@ == (n as int, 1int),
            r.wf(),
    {
        Rational { num: n, den: 1 }
    }

    /// Builds `num / den`, normalizing the denominator's sign.
    /// `None` when `den` is zero or when flipping a sign overflows.
    pub fn new(num: i128, den: i128) -> (r: Option<Rational>)
        ensures
            opt_view(r) == spec_new(num as int, den as int),
            r matches Some(v) ==> (v.wf() && rat_eq(v@, (num as int, den as int))),
    {
        if den == 0 {
            return None;
        }
        if den < 0 {
            let n = match (0i128).checked_sub(num) {
                Some(v) => v,
                None => {
                    return None;
                },
            };
            let d = match (0i128).checked_sub(den) {
                Some(v) => v,
                None => {
                    return None;
                },
            };
            proof {
                lemma_rat_eq_neg(num as int, den as int);
            }
            Some(Rational { num: n, den: d })
        } else {
            Some(Rational { num, den })
        }
    }

    /// Exact sum; `None` exactly when `checked_rat_add` overflows.
    pub fn add(&self, other: &Rational) -> (r: Option<Rational>)
        ensures
            opt_view(r) == checked_rat_add(self@, other@),
            self.den != 0 && other.den != 0 && r is Some ==> r->Some_0.den != 0,
            self.wf() && other.wf() && r is Some ==> r->Some_0.wf(),
    {
        let p1 = match self.num.checked_mul(other.den) {
            Some(v) => v,
            None => {
                return None;
            },
        };
        let p2 = match other.num.checked_mul(self.den) {
            Some(v) => v,
            None => {
                return None;
            },
        };
        let n = match p1.checked_add(p2) {
            Some(v) => v,
            None => {
                return None;
            },
        };
        let d = match self.den.checked_mul(other.den) {
            Some(v) => v,
            None => {
                return None;
            },
        };
        proof {
            lemma_mul_nonzero_pos(self.den as int, other.den as int);
        }
        Some(Rational { num: n, den: d })
    }

    /// Exact difference; `None` exactly when `checked_rat_sub` overflows.
    pub fn sub(&self, other: &Rational) -> (r: Option<Rational>)
        ensures
            opt_view(r) == checked_rat_sub(self@, other@),
            self.den != 0 && other.den != 0 && r is Some ==> r->Some_0.den != 0,
            self.wf() && other.wf() && r is Some ==> r->Some_0.wf(),
    {
        let p1 = match self.num.checked_mul(other.den) {
            Some(v) => v,
            None => {
                return None;
            },
        };
        let p2 = match other.num.checked_mul(self.den) {
            Some(v) => v,
            None => {
                return None;
            },
        };
        let n = match p1.checked_sub(p2) {
            Some(v) => v,
            None => {
                return None;
            },
        };
        let d = match self.den.checked_mul(other.den) {
            Some(v) => v,
            None => {
                return None;
            },
        };
        proof {
            lemma_mul_nonzero_pos(self.den as int, other.den as int);
        }
        Some(Rational { num: n, den: d })
    }

    /// Exact product; `None` exactly when `checked_rat_mul` overflows.
    pub fn mul(&self, other: &Rational) -> (r: Option<Rational>)
        ensures
            opt_view(r) == checked_rat_mul(self@, other@),
            self.den != 0 && other.den != 0 && r is Some ==> r->Some_0.den != 0,
            self.wf() && other.wf() && r is Some ==> r->Some_0.wf(),
    {
        let n = match self.num.checked_mul(other.num) {
            Some(v) => v,
            None => {
                return None;
            },
        };
        let d = match self.den.checked_mul(other.den) {
            Some(v) => v,
            None => {
                return None;
            },
        };
        proof {
            lemma_mul_nonzero_pos(self.den as int, other.den as int);
        }
        Some(Rational { num: n, den: d })
    }

    /// Exact quotient by cross multiplication; `None` exactly when
    /// `checked_rat_div` overflows.  Dividing by a representation with
    /// numerator zero yields a value with denominator zero.
    pub fn div(&self, other: &Rational) -> (r: Option<Rational>)
        ensures
            opt_view(r) == checked_rat_div(self@, other@),
            self.den != 0 && other.num != 0 && r is Some ==> r->Some_0.den != 0,
    {
        let n = match self.num.checked_mul(other.den) {
            Some(v) => v,
            None => {
                return None;
            },
        };
        let d = match self.den.checked_mul(other.num) {
            Some(v) => v,
            None => {
                return None;
            },
        };
        proof {
            lemma_mul_nonzero_pos(self.den as int, other.num as int);
        }
        Some(Rational { num: n, den: d })
    }

    /// Strict comparison of the denoted values, for well-formed operands;
    /// `None` exactly when a cross product overflows.
    pub fn lt(&self, other: &Rational) -> (r: Option<bool>)
        ensures
            r == checked_rat_lt(self@, other@),
    {
        let p1 = match self.num.checked_mul(other.den) {
            Some(v) => v,
            None => {
                return None;
            },
        };
        let p2 = match other.num.checked_mul(self.den) {
            Some(v) => v,
            None => {
                return None;
            },
        };
        Some(p1 < p2)
    }

    /// Equality of the denoted values, for operands with nonzero
    /// denominators; `None` exactly when a cross product overflows.
    pub fn eq_value(&self, other: &Rational) -> (r: Option<bool>)
        ensures
            r == checked_rat_eq(self@, other@),
    {
        let p1 = match self.num.checked_mul(other.den) {
            Some(v) => v,
            None => {
                return None;
            },
        };
        let p2 = match other.num.checked_mul(self.den) {
            Some(v) => v,
            None => {
                return None;
            },
        };
        Some(p1 == p2)
    }

    /// Flips both signs when the denominator is negative, making a nonzero
    /// denominator positive; the denoted value is unchanged.
    pub fn norm_sign(&self) -> (r: Option<Rational>)
        ensures
            opt_view(r) == checked_rat_norm(self@),
            self.den != 0 && r is Some ==> r->Some_0.wf(),
            r matches Some(v) ==> rat_eq(v@, self@),
    {
        if self.den < 0 {
            let n = match (0i128).checked_sub(self.num) {
                Some(v) => v,
                None => {
                    return None;
                },
            };
            let d = match (0i128).checked_sub(self.den) {
                Some(v) => v,
                None => {
                    return None;
                },
            };
            proof {
                lemma_rat_eq_neg(self.num as int, self.den as int);
            }
            Some(Rational { num: n, den: d })
        } else {
            Some(*self)
        }
    }
}

/// Flipping both signs of a representation keeps the denoted value.
pub proof fn lemma_rat_eq_neg(n: int, d: int)
    by (nonlinear_arith)
    ensures
        rat_eq((-n, -d), (n, d)),
{
}

/// A product of nonzero factors is nonzero; a product of positive factors
/// is positive.
pub proof fn lemma_mul_nonzero_pos(a: int, b: int)
    by (nonlinear_arith)
    ensures
        (a != 0 && b != 0) ==> a * b != 0,
        (a > 0 && b > 0) ==> a * b > 0,
{
}

/// Strict rational order is transitive on well-formed representations.
pub proof fn lemma_rat_lt_trans(a: (int, int), b: (int, int), c: (int, int))
    by (nonlinear_arith)
    requires
        rat_wf(a),
        rat_wf(b),
        rat_wf(c),
        rat_lt(a, b),
        rat_lt(b, c),
    ensures
        rat_lt(a, c),
{
}

} // verus!
