use lagrange_interpolation::interp::{lagrange_interpolate, InterpError};
use lagrange_interpolation::rational::Rational;

fn rat(num: i128, den: i128) -> Rational {
    Rational { num, den }
}

fn whole(n: i128) -> Rational {
    Rational { num: n, den: 1 }
}

/// sin(x) sampled at 0, 30, 60 and 90 degrees.
fn sin_table() -> Vec<(Rational, Rational)> {
    vec![
        (whole(0), rat(0, 1)),
        (whole(30), rat(1, 2)),
        (whole(60), rat(86603, 100000)),
        (whole(90), rat(1, 1)),
    ]
}

fn to_f64(r: &Rational) -> f64 {
    r.num as f64 / r.den as f64
}

#[test]
fn interpolate_sin() {
    let table = sin_table();
    let res = lagrange_interpolate(&table, whole(51)).unwrap();
    assert!((to_f64(&res) - 0.7771).abs() <= 1e-3);
}

#[test]
fn extrapolate_sin() {
    let table = sin_table();
    let res = lagrange_interpolate(&table, whole(100)); // xval too large.
    assert_eq!(res, Err(InterpError::OutOfRange));
}

#[test]
fn lower_endpoint_rejected() {
    let table = sin_table();
    let res = lagrange_interpolate(&table, whole(0));
    assert_eq!(res, Err(InterpError::OutOfRange));
}

#[test]
fn upper_endpoint_rejected() {
    let table = sin_table();
    let res = lagrange_interpolate(&table, whole(90));
    assert_eq!(res, Err(InterpError::OutOfRange));
}

#[test]
fn below_range_rejected() {
    let table = sin_table();
    let res = lagrange_interpolate(&table, whole(-5));
    assert_eq!(res, Err(InterpError::OutOfRange));
}

#[test]
fn empty_table_rejected() {
    let table: Vec<(Rational, Rational)> = vec![];
    let res = lagrange_interpolate(&table, whole(1));
    assert_eq!(res, Err(InterpError::InsufficientPoints));
}

#[test]
fn single_point_rejected() {
    let table = vec![(whole(0), whole(0))];
    assert_eq!(
        lagrange_interpolate(&table, whole(0)),
        Err(InterpError::InsufficientPoints)
    );
    assert_eq!(
        lagrange_interpolate(&table, rat(1, 2)),
        Err(InterpError::InsufficientPoints)
    );
}

#[test]
fn repeated_calls_identical() {
    let table = sin_table();
    let first = lagrange_interpolate(&table, whole(51));
    let second = lagrange_interpolate(&table, whole(51));
    assert_eq!(first, second);
}

#[test]
fn linear_two_points_exact() {
    // y = 2x through (0, 0) and (1, 2); at x = 1/2 the value is exactly 1.
    let table = vec![(whole(0), whole(0)), (whole(1), whole(2))];
    let res = lagrange_interpolate(&table, rat(1, 2)).unwrap();
    assert_eq!(res.eq_value(&whole(1)), Some(true));
    assert_eq!(to_f64(&res), 1.0);
}

#[test]
fn quadratic_three_points_exact() {
    // y = x^2 sampled at 0, 1, 2; at x = 3/2 the value is exactly 9/4.
    let table = vec![
        (whole(0), whole(0)),
        (whole(1), whole(1)),
        (whole(2), whole(4)),
    ];
    let res = lagrange_interpolate(&table, rat(3, 2)).unwrap();
    assert_eq!(res.eq_value(&rat(9, 4)), Some(true));
}

#[test]
fn cubic_four_points_exact() {
    // y = x^3 sampled at 0, 1, 2, 3; at x = 3/2 the value is exactly 27/8.
    let table = vec![
        (whole(0), whole(0)),
        (whole(1), whole(1)),
        (whole(2), whole(8)),
        (whole(3), whole(27)),
    ];
    let res = lagrange_interpolate(&table, rat(3, 2)).unwrap();
    assert_eq!(res.eq_value(&rat(27, 8)), Some(true));
}

#[test]
fn overflow_reported() {
    // A query with a huge denominator drives the exact sum past i128.
    let table = vec![(whole(0), whole(1)), (whole(1), whole(1))];
    let tiny = rat(1, 1_000_000_000_000_000_000_000_000_000_000);
    let res = lagrange_interpolate(&table, tiny);
    assert_eq!(res, Err(InterpError::Overflow));
}

#[test]
fn new_normalizes_sign() {
    assert_eq!(Rational::new(1, -2), Some(rat(-1, 2)));
    assert_eq!(Rational::new(1, 2), Some(rat(1, 2)));
    assert_eq!(Rational::new(3, 0), None);
    assert_eq!(Rational::new(1, i128::MIN), None);
}

#[test]
fn arithmetic_is_exact() {
    let half = rat(1, 2);
    let third = rat(1, 3);
    assert_eq!(half.add(&third), Some(rat(5, 6)));
    assert_eq!(half.sub(&third), Some(rat(1, 6)));
    assert_eq!(half.mul(&third), Some(rat(1, 6)));
    assert_eq!(half.div(&third), Some(rat(3, 2)));
    assert_eq!(rat(1, 2).div(&rat(-1, 3)), Some(rat(3, -2)));
    assert_eq!(rat(3, -2).norm_sign(), Some(rat(-3, 2)));
    assert_eq!(
        rat(1, 1).mul(&rat(i128::MAX, 1)).unwrap().mul(&rat(2, 1)),
        None
    );
}

#[test]
fn comparisons_follow_values() {
    assert_eq!(rat(1, 3).lt(&rat(1, 2)), Some(true));
    assert_eq!(rat(1, 2).lt(&rat(1, 3)), Some(false));
    assert_eq!(rat(2, 4).eq_value(&rat(1, 2)), Some(true));
    assert_eq!(rat(2, 4).eq_value(&rat(1, 3)), Some(false));
}
