//! Lagrange interpolation over exact rationals.
//!
//! The interpolant of a table of samples `(x_k, y_k)` is the sum over `k`
//! of `y_k * L_k(x)`, where the basis polynomial `L_k` is the product over
//! `j != k` of `(x - x_j) / (x_k - x_j)`.  The executable routine computes
//! that sum with overflow-checked `i128` rational arithmetic; its result is
//! pinned exactly by `spec_interpolate`, and a successful result denotes
//! `lagrange_value`, the mathematical Lagrange sum.

use crate::rational::{
    checked_rat_add, checked_rat_div, checked_rat_lt, checked_rat_mul, checked_rat_norm,
    checked_rat_sub, lemma_rat_lt_trans, rat_add, rat_div, rat_eq, rat_lt, rat_mul, rat_sub,
    rat_wf, Rational,
};
use vstd::prelude::*;

verus! {

/// Why an interpolation query was refused.
#[derive(Clone, Copy, Debug, PartialEq, Eq, Structural)]
pub enum InterpError {
    /// The table holds fewer than two points.
    InsufficientPoints,
    /// The query abscissa does not lie strictly between the first and the
    /// last abscissa of the table.
    OutOfRange,
    /// A step of the exact computation left the `i128` range.
    Overflow,
}

/// Every coordinate of the table is a well-formed rational.
pub open spec fn entries_wf(t: Seq<(Rational, Rational)>) -> bool {
    forall|k: int| 0 <= k < t.len() ==> (#[trigger] t[k]).0.wf() && t[k].1.wf()
}

/// The abscissas increase strictly from one entry to the next.
pub open spec fn strictly_increasing(t: Seq<(Rational, Rational)>) -> bool {
    forall|k: int| 0 <= k < t.len() - 1 ==> rat_lt((#[trigger] t[k]).0@, t[k + 1].0@)
}

/// The table invariant the caller owes: well-formed coordinates, strictly
/// increasing abscissas.
pub open spec fn table_wf(t: Seq<(Rational, Rational)>) -> bool {
    entries_wf(t) && strictly_increasing(t)
}

/// The Lagrange factor of sample `j` inside basis polynomial `i`:
/// `(x - x_j) / (x_i - x_j)`.
pub open spec fn term_value(t: Seq<(Rational, Rational)>, x: (int, int), i: int, j: int) -> (
    int,
    int,
) {
    rat_div(rat_sub(x, t[j].0@), rat_sub(t[i].0@, t[j].0@))
}

/// Product of the Lagrange factors of basis polynomial `i` over samples
/// `j < m`, skipping `j == i`.
pub open spec fn basis_prefix(t: Seq<(Rational, Rational)>, x: (int, int), i: int, m: int) -> (
    int,
    int,
)
    decreases m,
{
    if m <= 0 {
        (1, 1)
    } else if m - 1 == i {
        basis_prefix(t, x, i, m - 1)
    } else {
        rat_mul(basis_prefix(t, x, i, m - 1), term_value(t, x, i, m - 1))
    }
}

/// The basis polynomial `L_i` of the whole table, evaluated at `x`.
pub open spec fn basis_value(t: Seq<(Rational, Rational)>, x: (int, int), i: int) -> (int, int) {
    basis_prefix(t, x, i, t.len() as int)
}

/// Sum of `y_k * L_k(x)` over the samples `k < m`.
pub open spec fn sum_prefix(t: Seq<(Rational, Rational)>, x: (int, int), m: int) -> (int, int)
    decreases m,
{
    if m <= 0 {
        (0, 1)
    } else {
        rat_add(sum_prefix(t, x, m - 1), rat_mul(t[m - 1].1@, basis_value(t, x, m - 1)))
    }
}

/// The Lagrange interpolant of the whole table, evaluated at `x`: the value
/// at `x` of the unique polynomial of degree below `t.len()` through all
/// sample points.
pub open spec fn lagrange_value(t: Seq<(Rational, Rational)>, x: (int, int)) -> (int, int) {
    sum_prefix(t, x, t.len() as int)
}

/// `term_value` under `i128` overflow checking, in the executable
/// evaluation order.
pub open spec fn checked_term(t: Seq<(Rational, Rational)>, x: (int, int), i: int, j: int) -> Option<
    (int, int),
> {
    match checked_rat_sub(x, t[j].0@) {
        None => None,
        Some(u) => match checked_rat_sub(t[i].0@, t[j].0@) {
            None => None,
            Some(w) => checked_rat_div(u, w),
        },
    }
}

/// `basis_prefix` under `i128` overflow checking.
pub open spec fn checked_basis_prefix(
    t: Seq<(Rational, Rational)>,
    x: (int, int),
    i: int,
    m: int,
) -> Option<(int, int)>
    decreases m,
{
    if m <= 0 {
        Some((1, 1))
    } else {
        match checked_basis_prefix(t, x, i, m - 1) {
            None => None,
            Some(p) => if m - 1 == i {
                Some(p)
            } else {
                match checked_term(t, x, i, m - 1) {
                    None => None,
                    Some(q) => checked_rat_mul(p, q),
                }
            },
        }
    }
}

/// `sum_prefix` under `i128` overflow checking.
pub open spec fn checked_sum_prefix(t: Seq<(Rational, Rational)>, x: (int, int), m: int) -> Option<
    (int, int),
>
    decreases m,
{
    if m <= 0 {
        Some((0, 1))
    } else {
        match checked_sum_prefix(t, x, m - 1) {
            None => None,
            Some(s) => match checked_basis_prefix(t, x, m - 1, t.len() as int) {
                None => None,
                Some(b) => match checked_rat_mul(t[m - 1].1@, b) {
                    None => None,
                    Some(c) => checked_rat_add(s, c),
                },
            },
        }
    }
}

/// What `lagrange_interpolate` returns, as a function of its inputs: the
/// size check, then the two strict bounds checks in order, then the checked
/// Lagrange sum, sign-normalized.
pub open spec fn spec_interpolate(t: Seq<(Rational, Rational)>, x: (int, int)) -> Result<
    (int, int),
    InterpError,
> {
    if t.len() < 2 {
        Err(InterpError::InsufficientPoints)
    } else {
        match checked_rat_lt(t[0].0@, x) {
            None => Err(InterpError::Overflow),
            Some(false) => Err(InterpError::OutOfRange),
            Some(true) => match checked_rat_lt(x, t[t.len() - 1].0@) {
                None => Err(InterpError::Overflow),
                Some(false) => Err(InterpError::OutOfRange),
                Some(true) => match checked_sum_prefix(t, x, t.len() as int) {
                    None => Err(InterpError::Overflow),
                    Some(v) => match checked_rat_norm(v) {
                        None => Err(InterpError::Overflow),
                        Some(w) => Ok(w),
                    },
                },
            },
        }
    }
}

/// The view of an interpolation result, for pinning it to
/// `spec_interpolate`.
pub open spec fn result_view(r: Result<Rational, InterpError>) -> Result<(int, int), InterpError> {
    match r {
        Ok(v) => Ok(v@),
        Err(e) => Err(e),
    }
}

/// Strict order of the abscissas extends from neighbours to every pair.
pub proof fn lemma_sorted_pairwise(t: Seq<(Rational, Rational)>, i: int, j: int)
    requires
        table_wf(t),
        0 <= i < j < t.len(),
    ensures
        rat_lt(t[i].0@, t[j].0@),
    decreases j - i,
{
    if j > i + 1 {
        lemma_sorted_pairwise(t, i, j - 1);
        lemma_rat_lt_trans(t[i].0@, t[j - 1].0@, t[j].0@);
    }
}

/// Once a checked basis product has overflowed, every longer prefix
/// overflows too.
proof fn lemma_checked_basis_none(t: Seq<(Rational, Rational)>, x: (int, int), i: int, m1: int, m2: int)
    requires
        0 <= m1 <= m2,
        checked_basis_prefix(t, x, i, m1) is None,
    ensures
        checked_basis_prefix(t, x, i, m2) is None,
    decreases m2 - m1,
{
    if m2 > m1 {
        lemma_checked_basis_none(t, x, i, m1, m2 - 1);
    }
}

/// Once a checked partial sum has overflowed, every longer prefix
/// overflows too.
proof fn lemma_checked_sum_none(t: Seq<(Rational, Rational)>, x: (int, int), m1: int, m2: int)
    requires
        0 <= m1 <= m2,
        checked_sum_prefix(t, x, m1) is None,
    ensures
        checked_sum_prefix(t, x, m2) is None,
    decreases m2 - m1,
{
    if m2 > m1 {
        lemma_checked_sum_none(t, x, m1, m2 - 1);
    }
}

/// A checked basis product that does not overflow computes exactly the
/// mathematical basis product.
proof fn lemma_checked_basis_exact(t: Seq<(Rational, Rational)>, x: (int, int), i: int, m: int)
    requires
        checked_basis_prefix(t, x, i, m) is Some,
    ensures
        checked_basis_prefix(t, x, i, m) == Some(basis_prefix(t, x, i, m)),
    decreases m,
{
    if m > 0 {
        assert(checked_basis_prefix(t, x, i, m - 1) is Some);
        lemma_checked_basis_exact(t, x, i, m - 1);
    }
}

/// A checked Lagrange sum that does not overflow computes exactly the
/// mathematical Lagrange sum.
proof fn lemma_checked_sum_exact(t: Seq<(Rational, Rational)>, x: (int, int), m: int)
    requires
        checked_sum_prefix(t, x, m) is Some,
    ensures
        checked_sum_prefix(t, x, m) == Some(sum_prefix(t, x, m)),
    decreases m,
{
    if m > 0 {
        assert(checked_sum_prefix(t, x, m - 1) is Some);
        lemma_checked_sum_exact(t, x, m - 1);
        assert(checked_basis_prefix(t, x, m - 1, t.len() as int) is Some);
        lemma_checked_basis_exact(t, x, m - 1, t.len() as int);
    }
}

/// Evaluates the Lagrange interpolant of `table` at `xval`, exactly.
///
/// The caller owes the table invariant: well-formed rationals, abscissas
/// strictly increasing.  A table of fewer than two points is refused, and
/// so is a query that does not lie strictly between the first and the last
/// abscissa — the endpoints themselves are rejected, since the routine
/// interpolates and never extrapolates.  A computation step that leaves
/// the `i128` range is reported as `Overflow`.  The result is a function
/// of the inputs alone (`spec_interpolate`); a successful value is well
/// formed and denotes the mathematical Lagrange sum `lagrange_value`, so
/// on data sampled from a polynomial of degree below the table's size it
/// denotes that polynomial's value at `xval`.
#[verifier::loop_isolation(false)]
pub fn lagrange_interpolate(table: &Vec<(Rational, Rational)>, xval: Rational) -> (r: Result<
    Rational,
    InterpError,
>)
    requires
        table_wf(table@),
        xval.wf(),
    ensures
        result_view(r) == spec_interpolate(table@, xval@),
        r == Err::<Rational, InterpError>(InterpError::InsufficientPoints) <==> table@.len() < 2,
        r matches Ok(v) ==> (v.wf() && rat_eq(v@, lagrange_value(table@, xval@))),
        r is Ok ==> rat_lt(table@[0].0@, xval@) && rat_lt(xval@, table@[table@.len() - 1].0@),
{
    let n = table.len();
    if n < 2 {
        return Err(InterpError::InsufficientPoints);
    }
    match table[0].0.lt(&xval) {
        None => {
            return Err(InterpError::Overflow);
        },
        Some(false) => {
            return Err(InterpError::OutOfRange);
        },
        Some(true) => {},
    }
    match xval.lt(&table[n - 1].0) {
        None => {
            return Err(InterpError::Overflow);
        },
        Some(false) => {
            return Err(InterpError::OutOfRange);
        },
        Some(true) => {},
    }
    let mut sum = Rational::from_int(0);
    let mut i: usize = 0;
    while i < n
        invariant
            i <= n,
            checked_sum_prefix(table@, xval@, i as int) == Some(sum@),
            sum.den != 0,
        decreases n - i,
    {
        let mut product = Rational::from_int(1);
        let mut j: usize = 0;
        while j < n
            invariant
                j <= n,
                checked_basis_prefix(table@, xval@, i as int, j as int) == Some(product@),
                product.den != 0,
            decreases n - j,
        {
            if j != i {
                proof {
                    if (i as int) < (j as int) {
                        lemma_sorted_pairwise(table@, i as int, j as int);
                    } else {
                        lemma_sorted_pairwise(table@, j as int, i as int);
                    }
                }
                let t1 = match xval.sub(&table[j].0) {
                    Some(v) => v,
                    None => {
                        proof {
                            assert(checked_basis_prefix(table@, xval@, i as int, j as int + 1)
                                is None);
                            lemma_checked_basis_none(
                                table@,
                                xval@,
                                i as int,
                                j as int + 1,
                                n as int,
                            );
                            assert(checked_sum_prefix(table@, xval@, i as int + 1) is None);
                            lemma_checked_sum_none(table@, xval@, i as int + 1, n as int);
                        }
                        return Err(InterpError::Overflow);
                    },
                };
                let t2 = match table[i].0.sub(&table[j].0) {
                    Some(v) => v,
                    None => {
                        proof {
                            assert(checked_basis_prefix(table@, xval@, i as int, j as int + 1)
                                is None);
                            lemma_checked_basis_none(
                                table@,
                                xval@,
                                i as int,
                                j as int + 1,
                                n as int,
                            );
                            assert(checked_sum_prefix(table@, xval@, i as int + 1) is None);
                            lemma_checked_sum_none(table@, xval@, i as int + 1, n as int);
                        }
                        return Err(InterpError::Overflow);
                    },
                };
                assert(t2.num != 0);
                let term = match t1.div(&t2) {
                    Some(v) => v,
                    None => {
                        proof {
                            assert(checked_basis_prefix(table@, xval@, i as int, j as int + 1)
                                is None);
                            lemma_checked_basis_none(
                                table@,
                                xval@,
                                i as int,
                                j as int + 1,
                                n as int,
                            );
                            assert(checked_sum_prefix(table@, xval@, i as int + 1) is None);
                            lemma_checked_sum_none(table@, xval@, i as int + 1, n as int);
                        }
                        return Err(InterpError::Overflow);
                    },
                };
                product = match product.mul(&term) {
                    Some(v) => v,
                    None => {
                        proof {
                            assert(checked_basis_prefix(table@, xval@, i as int, j as int + 1)
                                is None);
                            lemma_checked_basis_none(
                                table@,
                                xval@,
                                i as int,
                                j as int + 1,
                                n as int,
                            );
                            assert(checked_sum_prefix(table@, xval@, i as int + 1) is None);
                            lemma_checked_sum_none(table@, xval@, i as int + 1, n as int);
                        }
                        return Err(InterpError::Overflow);
                    },
                };
            }
            assert(checked_basis_prefix(table@, xval@, i as int, j as int + 1) == Some(product@));
            j = j + 1;
        }
        let weighted = match table[i].1.mul(&product) {
            Some(v) => v,
            None => {
                proof {
                    assert(checked_sum_prefix(table@, xval@, i as int + 1) is None);
                    lemma_checked_sum_none(table@, xval@, i as int + 1, n as int);
                }
                return Err(InterpError::Overflow);
            },
        };
        sum = match sum.add(&weighted) {
            Some(v) => v,
            None => {
                proof {
                    assert(checked_sum_prefix(table@, xval@, i as int + 1) is None);
                    lemma_checked_sum_none(table@, xval@, i as int + 1, n as int);
                }
                return Err(InterpError::Overflow);
            },
        };
        assert(checked_sum_prefix(table@, xval@, i as int + 1) == Some(sum@));
        i = i + 1;
    }
    proof {
        lemma_checked_sum_exact(table@, xval@, n as int);
    }
    match sum.norm_sign() {
        Some(v) => Ok(v),
        None => Err(InterpError::Overflow),
    }
}

/// Law: a query equal to the first or the last abscissa is rejected as out
/// of range, never answered — the bounds are strict.
pub proof fn lemma_endpoint_rejected(t: Seq<(Rational, Rational)>, x: (int, int))
    requires
        table_wf(t),
        t.len() >= 2,
        rat_wf(x),
        checked_rat_lt(t[0].0@, x) is Some,
        checked_rat_lt(x, t[t.len() - 1].0@) is Some,
        rat_eq(x, t[0].0@) || rat_eq(x, t[t.len() - 1].0@),
    ensures
        spec_interpolate(t, x) == Err::<(int, int), InterpError>(InterpError::OutOfRange),
{
}

/// Law: a query below the first abscissa or above the last is rejected as
/// out of range, never answered.
pub proof fn lemma_out_of_range_rejected(t: Seq<(Rational, Rational)>, x: (int, int))
    requires
        table_wf(t),
        t.len() >= 2,
        rat_wf(x),
        checked_rat_lt(t[0].0@, x) is Some,
        checked_rat_lt(x, t[t.len() - 1].0@) is Some,
        rat_lt(x, t[0].0@) || rat_lt(t[t.len() - 1].0@, x),
    ensures
        spec_interpolate(t, x) == Err::<(int, int), InterpError>(InterpError::OutOfRange),
{
}

/// Law: a table of fewer than two points is always refused, whatever the
/// query.
pub proof fn lemma_insufficient_points_rejected(t: Seq<(Rational, Rational)>, x: (int, int))
    requires
        t.len() < 2,
    ensures
        spec_interpolate(t, x) == Err::<(int, int), InterpError>(InterpError::InsufficientPoints),
{
}

/// Law: interpolation is deterministic.  The routine's contract pins its
/// result to `spec_interpolate`, a function of the inputs alone, so two
/// results obtained for the same table and query are identical.
pub proof fn lemma_interpolate_deterministic(
    t: Seq<(Rational, Rational)>,
    x: (int, int),
    r1: Result<Rational, InterpError>,
    r2: Result<Rational, InterpError>,
)
    requires
        result_view(r1) == spec_interpolate(t, x),
        result_view(r2) == spec_interpolate(t, x),
    ensures
        r1 == r2,
{
    match (r1, r2) {
        (Ok(a), Ok(b)) => {
            assert(a@ == b@);
            assert(a == b);
        },
        _ => {},
    }
}

/// The heart of the two-point linear-data law, over scalars: the
/// difference of the two weighted numerators equals the line's value at
/// the query times the abscissa difference.
proof fn lemma_two_point_line_identity(an: int, bn: int, x0: int, x1: int, xq: int)
    by (nonlinear_arith)
    ensures
        ((an + bn * x0) * (xq - x1)) - ((an + bn * x1) * (xq - x0)) == (an + bn * xq) * (x0 - x1),
{
}

/// Law (exactness on data of low degree, two-point integer case): when the
/// two samples have whole-number abscissas and their ordinates lie on a
/// line `a + b*x` with whole-number coefficients, and the query abscissa is
/// a whole number, the mathematical interpolant denotes exactly the line's
/// value at the query point.
pub proof fn lemma_two_point_line_exact(
    x0: Rational,
    y0: Rational,
    x1: Rational,
    y1: Rational,
    x: Rational,
    a: int,
    b: int,
)
    requires
        x0.den == 1,
        x1.den == 1,
        x.den == 1,
        y0@ == (a + b * (x0.num as int), 1int),
        y1@ == (a + b * (x1.num as int), 1int),
    ensures
        rat_eq(
            lagrange_value(seq![(x0, y0), (x1, y1)], x@),
            (a + b * (x.num as int), 1int),
        ),
{
    let t = seq![(x0, y0), (x1, y1)];
    assert(t.len() == 2);
    assert(t[0] == (x0, y0));
    assert(t[1] == (x1, y1));
    let x0n = x0.num as int;
    let x1n = x1.num as int;
    let xqn = x.num as int;
    let d0 = rat_sub(x@, x1@);
    let e0 = rat_sub(x0@, x1@);
    let d1 = rat_sub(x@, x0@);
    let e1 = rat_sub(x1@, x0@);
    assert(d0.0 == xqn - x1n && d0.1 == 1 && e0.0 == x0n - x1n && e0.1 == 1 && d1.0 == xqn - x0n
        && d1.1 == 1 && e1.0 == x1n - x0n && e1.1 == 1) by (nonlinear_arith)
        requires
            x@.0 == xqn,
            x@.1 == 1,
            x0@.0 == x0n,
            x0@.1 == 1,
            x1@.0 == x1n,
            x1@.1 == 1,
            d0 == rat_sub(x@, x1@),
            e0 == rat_sub(x0@, x1@),
            d1 == rat_sub(x@, x0@),
            e1 == rat_sub(x1@, x0@),
            d0 == (x@.0 * x1@.1 - x1@.0 * x@.1, x@.1 * x1@.1),
            e0 == (x0@.0 * x1@.1 - x1@.0 * x0@.1, x0@.1 * x1@.1),
            d1 == (x@.0 * x0@.1 - x0@.0 * x@.1, x@.1 * x0@.1),
            e1 == (x1@.0 * x0@.1 - x0@.0 * x1@.1, x1@.1 * x0@.1),
    ;
    let u0 = term_value(t, x@, 0, 1);
    let u1 = term_value(t, x@, 1, 0);
    assert(u0 == rat_div(d0, e0));
    assert(u1 == rat_div(d1, e1));
    assert(u0.0 == xqn - x1n && u0.1 == x0n - x1n && u1.0 == xqn - x0n && u1.1 == x1n - x0n)
        by (nonlinear_arith)
        requires
            d0.0 == xqn - x1n,
            d0.1 == 1,
            e0.0 == x0n - x1n,
            e0.1 == 1,
            d1.0 == xqn - x0n,
            d1.1 == 1,
            e1.0 == x1n - x0n,
            e1.1 == 1,
            u0 == (d0.0 * e0.1, d0.1 * e0.0),
            u1 == (d1.0 * e1.1, d1.1 * e1.0),
    ;
    let p0 = basis_prefix(t, x@, 0, 1);
    let p1 = basis_prefix(t, x@, 1, 0);
    assert(basis_prefix(t, x@, 0, 0) == (1int, 1int));
    assert(p0 == (1int, 1int));
    assert(p1 == (1int, 1int));
    let b0 = basis_value(t, x@, 0);
    let b1 = basis_value(t, x@, 1);
    assert(b0 == rat_mul(p0, u0));
    assert(basis_prefix(t, x@, 1, 1) == rat_mul(p1, u1));
    assert(b1 == basis_prefix(t, x@, 1, 1));
    assert(b0.0 == u0.0 && b0.1 == u0.1 && b1.0 == u1.0 && b1.1 == u1.1) by (nonlinear_arith)
        requires
            p0.0 == 1,
            p0.1 == 1,
            p1.0 == 1,
            p1.1 == 1,
            b0 == (p0.0 * u0.0, p0.1 * u0.1),
            b1 == (p1.0 * u1.0, p1.1 * u1.1),
    ;
    let t1v = (a + b * x0n) * (xqn - x1n);
    let t2v = (a + b * x1n) * (xqn - x0n);
    let m0 = rat_mul(y0@, b0);
    let m1 = rat_mul(y1@, b1);
    assert(m0.0 == t1v && m0.1 == x0n - x1n && m1.0 == t2v && m1.1 == x1n - x0n)
        by (nonlinear_arith)
        requires
            y0@.0 == a + b * x0n,
            y0@.1 == 1,
            y1@.0 == a + b * x1n,
            y1@.1 == 1,
            b0.0 == xqn - x1n,
            b0.1 == x0n - x1n,
            b1.0 == xqn - x0n,
            b1.1 == x1n - x0n,
            m0 == (y0@.0 * b0.0, y0@.1 * b0.1),
            m1 == (y1@.0 * b1.0, y1@.1 * b1.1),
            t1v == (a + b * x0n) * (xqn - x1n),
            t2v == (a + b * x1n) * (xqn - x0n),
    ;
    let s1 = rat_add((0int, 1int), m0);
    let v = lagrange_value(t, x@);
    assert(sum_prefix(t, x@, 0) == (0int, 1int));
    assert(sum_prefix(t, x@, 1) == rat_add(sum_prefix(t, x@, 0), rat_mul(t[0].1@, b0)));
    assert(sum_prefix(t, x@, 1) == s1);
    assert(v == sum_prefix(t, x@, 2));
    assert(v == rat_add(sum_prefix(t, x@, 1), rat_mul(t[1].1@, b1)));
    assert(v == rat_add(s1, m1));
    assert(s1.0 == m0.0 && s1.1 == m0.1) by (nonlinear_arith)
        requires
            s1.0 == (0int, 1int).0 * m0.1 + m0.0 * (0int, 1int).1,
            s1.1 == (0int, 1int).1 * m0.1,
    ;
    let rv = a + b * xqn;
    lemma_two_point_line_identity(a, b, x0n, x1n, xqn);
    assert(t1v - t2v == rv * (x0n - x1n));
    assert(v.0 == rv * ((x0n - x1n) * (x1n - x0n)) && v.1 == (x0n - x1n) * (x1n - x0n))
        by (nonlinear_arith)
        requires
            s1.0 == t1v,
            s1.1 == x0n - x1n,
            m1.0 == t2v,
            m1.1 == x1n - x0n,
            v == (s1.0 * m1.1 + m1.0 * s1.1, s1.1 * m1.1),
            t1v - t2v == rv * (x0n - x1n),
    ;
    assert(v.0 * 1 == rv * v.1) by (nonlinear_arith)
        requires
            v.0 == rv * ((x0n - x1n) * (x1n - x0n)),
            v.1 == (x0n - x1n) * (x1n - x0n),
    ;
}

} // verus!
