use gcv_spline::basis::create_basis;
use gcv_spline::bandet::consume_and_decompose;
use gcv_spline::bansol::solve_decomposed_system;
use gcv_spline::gcvspl::fit_gcv_spline;
use gcv_spline::prep::create_weighted_matrix;
use gcv_spline::scalar::Scalar;
use gcv_spline::search::find_knot_interval;
use gcv_spline::splder::evaluate_spline;
use gcv_spline::support::check_increasing;
use gcv_spline::support::check_matrix_size;
use gcv_spline::support::check_order;
use gcv_spline::support::check_weights_length;
use gcv_spline::support::FittingError;
use gcv_spline::trinv::trace_inverse;

/// Double-precision scalar for exercising the generic engine.
#[derive(Clone, Copy, Debug, PartialEq)]
struct Fl(f64);

impl Scalar for Fl {
    // Outside the verifier the specification functions are ordinary items;
    // they get the same meaning as the executable operations.
    fn lt_spec(self, rhs: Self) -> bool {
        self.0 < rhs.0
    }
    fn eq_spec(self, rhs: Self) -> bool {
        self.0 == rhs.0
    }
    fn add_spec(self, rhs: Self) -> Self {
        Fl(self.0 + rhs.0)
    }
    fn sub_spec(self, rhs: Self) -> Self {
        Fl(self.0 - rhs.0)
    }
    fn mul_spec(self, rhs: Self) -> Self {
        Fl(self.0 * rhs.0)
    }
    fn div_spec(self, rhs: Self) -> Self {
        Fl(self.0 / rhs.0)
    }
    fn neg_spec(self) -> Self {
        Fl(-self.0)
    }
    fn abs_spec(self) -> Self {
        Fl(self.0.abs())
    }
    fn from_count_spec(v: u64) -> Self {
        Fl(v as f64)
    }
    fn lt_transitive(_: Self, _: Self, _: Self) {}

    fn lt(self, rhs: Self) -> bool {
        self.0 < rhs.0
    }
    fn le(self, rhs: Self) -> bool {
        self.0 <= rhs.0
    }
    fn gt(self, rhs: Self) -> bool {
        self.0 > rhs.0
    }
    fn ge(self, rhs: Self) -> bool {
        self.0 >= rhs.0
    }
    fn eq_value(self, rhs: Self) -> bool {
        self.0 == rhs.0
    }
    fn add(self, rhs: Self) -> Self {
        Fl(self.0 + rhs.0)
    }
    fn sub(self, rhs: Self) -> Self {
        Fl(self.0 - rhs.0)
    }
    fn mul(self, rhs: Self) -> Self {
        Fl(self.0 * rhs.0)
    }
    fn div(self, rhs: Self) -> Self {
        Fl(self.0 / rhs.0)
    }
    fn neg(self) -> Self {
        Fl(-self.0)
    }
    fn abs(self) -> Self {
        Fl(self.0.abs())
    }
    fn from_count(v: u64) -> Self {
        Fl(v as f64)
    }
}

fn wrap(values: &[f64]) -> Vec<Fl> {
    values.iter().map(|v| Fl(*v)).collect()
}

fn fit(
    knots: &Vec<Fl>,
    data: &Vec<Fl>,
    weights: &Vec<Fl>,
    half_order: usize,
    error_variance: f64,
) -> Result<(Vec<Fl>, Fl, Vec<Fl>), FittingError> {
    fit_gcv_spline(knots, data, weights, half_order, Fl(error_variance))
}

fn sin_setup() -> (Vec<Fl>, Vec<Fl>, Vec<Fl>) {
    let knots: Vec<f64> = (0..=100).map(|e| e as f64).collect();
    let data: Vec<f64> = knots.iter().map(|e| (e * 0.01).sin()).collect();
    let weights = vec![1.0; knots.len()];
    (wrap(&knots), wrap(&data), wrap(&weights))
}

#[test]
fn test_sin_eval() {
    let (knots, data, weights) = sin_setup();
    let coefs = fit(&knots, &data, &weights, 3, 0.0).unwrap().0;
    let value = evaluate_spline(0, 3, Fl(50.5), &knots, &coefs, 0);
    assert!((value.0 - 0.505_f64.sin()).abs() < 1e-15)
}

#[test]
fn test_sin_derivative() {
    let (knots, data, weights) = sin_setup();
    let coefs = fit(&knots, &data, &weights, 3, 0.0).unwrap().0;
    let value = evaluate_spline(1, 3, Fl(50.5), &knots, &coefs, 0);
    assert!((value.0 - 0.01 * 0.505_f64.cos()).abs() < 1e-15)
}

#[test]
fn test_sin_second_derivative() {
    let (knots, data, weights) = sin_setup();
    let coefs = fit(&knots, &data, &weights, 3, 0.0).unwrap().0;
    let value = evaluate_spline(2, 3, Fl(50.5), &knots, &coefs, 0);
    assert!((value.0 + 0.01 * 0.01 * 0.505_f64.sin()).abs() < 1e-15)
}

#[test]
fn test_multiple_evaluations() {
    let time = wrap(&[0., 1., 3., 4., 5., 6.]);
    let values = wrap(&[0., 1., 9., 16., 25., 36.]);
    let weights = wrap(&[1.; 6]);

    let coefs = fit(&time, &values, &weights, 3, 0.0).unwrap().0;
    let interpolated: Vec<f64> = [2., 3.5, 5.]
        .iter()
        .map(|p| evaluate_spline(0, 3, Fl(*p), &time, &coefs, 0).0)
        .collect();
    let derivatives: Vec<f64> = [2., 3.5, 5.]
        .iter()
        .map(|p| evaluate_spline(1, 3, Fl(*p), &time, &coefs, 0).0)
        .collect();
    assert!((interpolated[0] - 2. * 2.).abs() < 1e-12);
    assert!((interpolated[1] - 3.5 * 3.5).abs() < 1e-12);
    assert!((interpolated[2] - 5. * 5.).abs() < 1e-12);
    assert!((derivatives[0] - 2. * 2.).abs() < 1e-12);
    assert!((derivatives[1] - 2. * 3.5).abs() < 1e-12);
    assert!((derivatives[2] - 2. * 5.).abs() < 1e-12);
}

#[test]
fn interpolates_data_at_knots() {
    let knots: Vec<f64> = vec![0., 0.5, 1.25, 2., 2.5, 3.75, 4., 5.5, 6., 7.25];
    let data: Vec<f64> = knots.iter().map(|x| x * x - 3. * x + 2.).collect();
    let weights = vec![1.0; knots.len()];
    let (knots, data_w, weights) = (wrap(&knots), wrap(&data), wrap(&weights));

    let coefs = fit(&knots, &data_w, &weights, 3, 0.0).unwrap().0;
    for i in 0..knots.len() {
        let value = evaluate_spline(0, 3, knots[i], &knots, &coefs, 0).0;
        let expected = data[i];
        let scale = if expected.abs() > 1.0 { expected.abs() } else { 1.0 };
        assert!(
            ((value - expected) / scale).abs() < 1e-9,
            "knot {}: {} vs {}",
            i,
            value,
            expected
        );
    }
}

#[test]
fn reproduces_low_degree_polynomial() {
    // A polynomial with all derivatives of order at least `half_order` zero
    // meets the spline's natural boundary conditions, so interpolating its
    // samples reproduces it everywhere.
    let poly = |x: f64| 2.0 + x - 0.5 * x * x;
    let knots: Vec<f64> = (0..12).map(|e| e as f64).collect();
    let data: Vec<f64> = knots.iter().map(|x| poly(*x)).collect();
    let weights = vec![1.0; knots.len()];
    let (knots, data_w, weights) = (wrap(&knots), wrap(&data), wrap(&weights));

    let coefs = fit(&knots, &data_w, &weights, 3, 0.0).unwrap().0;
    for p in [0.5, 2.25, 5.5, 7.75, 10.5] {
        let value = evaluate_spline(0, 3, Fl(p), &knots, &coefs, 0).0;
        let expected = poly(p);
        assert!(
            ((value - expected) / expected).abs() < 1e-10,
            "point {}: {} vs {}",
            p,
            value,
            expected
        );
    }
}

#[test]
fn high_derivatives_vanish_exactly() {
    let (knots, data, weights) = sin_setup();
    let coefs = fit(&knots, &data, &weights, 3, 0.0).unwrap().0;
    for point in [0.0, 17.3, 50.5, 100.0, 123.0, -4.0] {
        assert_eq!(evaluate_spline(6, 3, Fl(point), &knots, &coefs, 0).0, 0.0);
        assert_eq!(evaluate_spline(7, 3, Fl(point), &knots, &coefs, 11).0, 0.0);
        assert_eq!(evaluate_spline(9, 3, Fl(point), &knots, &coefs, 55).0, 0.0);
    }
}

#[test]
fn knot_interval_boundaries_and_interior() {
    let knots = wrap(&[1.0, 2.0, 4.0, 8.0, 16.0]);
    // Below the first knot.
    assert_eq!(find_knot_interval(&knots, Fl(0.5), 0), 0);
    // At or above the last knot.
    assert_eq!(find_knot_interval(&knots, Fl(16.0), 2), 5);
    assert_eq!(find_knot_interval(&knots, Fl(100.0), 1), 5);
    // Interior points: knots[i - 1] <= point < knots[i].
    assert_eq!(find_knot_interval(&knots, Fl(1.0), 0), 1);
    assert_eq!(find_knot_interval(&knots, Fl(3.0), 0), 2);
    assert_eq!(find_knot_interval(&knots, Fl(4.0), 0), 3);
    assert_eq!(find_knot_interval(&knots, Fl(15.9), 0), 4);
}

#[test]
fn knot_interval_ignores_hint() {
    let knots_raw: Vec<f64> = (0..50).map(|e| (e * e) as f64).collect();
    let knots = wrap(&knots_raw);
    for point in [-1.0, 0.0, 3.5, 100.0, 1200.25, 2400.99, 2401.0, 9999.0] {
        let reference = find_knot_interval(&knots, Fl(point), 0);
        for hint in [1, 7, 24, 49, 50, 1000] {
            assert_eq!(find_knot_interval(&knots, Fl(point), hint), reference);
        }
        if reference > 0 && reference < knots.len() {
            assert!(knots_raw[reference - 1] <= point && point < knots_raw[reference]);
        }
    }
}

#[test]
fn evaluation_ignores_hint() {
    let (knots, data, weights) = sin_setup();
    let coefs = fit(&knots, &data, &weights, 3, 0.0).unwrap().0;
    for point in [-1.0, 0.0, 33.3, 50.5, 100.0, 140.0] {
        for order in [0, 1, 2] {
            let reference = evaluate_spline(order, 3, Fl(point), &knots, &coefs, 0).0;
            for hint in [1, 25, 77, 101, 500] {
                assert_eq!(
                    evaluate_spline(order, 3, Fl(point), &knots, &coefs, hint).0,
                    reference
                );
            }
        }
    }
}

#[test]
fn smoothing_ratio_stat_stays_in_unit_interval() {
    let knots: Vec<f64> = (0..=40).map(|e| e as f64 * 0.25).collect();
    // A mildly rough signal so the searches take several trials.
    let data: Vec<f64> = knots
        .iter()
        .map(|x| x.sin() + 0.05 * (31.0 * x).sin())
        .collect();
    let weights = vec![1.0; knots.len()];
    let (knots, data, weights) = (wrap(&knots), wrap(&data), wrap(&weights));

    for variance in [-1.0, 0.0, 1e-4, 0.3, 1e6] {
        let (coefs, _, stats) = fit(&knots, &data, &weights, 3, variance).unwrap();
        assert_eq!(coefs.len(), knots.len());
        assert_eq!(stats.len(), 6);
        assert!(
            stats[3].0 >= 0.0 && stats[3].0 <= 1.0,
            "variance {}: stats[3] = {}",
            variance,
            stats[3].0
        );
    }
}

#[test]
fn negative_variance_is_reestimated() {
    let knots: Vec<f64> = (0..=30).map(|e| e as f64).collect();
    let data: Vec<f64> = knots.iter().map(|x| (0.2 * x).cos()).collect();
    let weights = vec![1.0; knots.len()];
    let (knots, data, weights) = (wrap(&knots), wrap(&data), wrap(&weights));

    let (coefs, variance, stats) = fit(&knots, &data, &weights, 2, -1.0).unwrap();
    assert_eq!(variance.0, stats[5].0);
    // The cross-validated fit stays close to the smooth signal.
    for i in 0..knots.len() {
        let value = evaluate_spline(0, 2, knots[i], &knots, &coefs, 0).0;
        assert!((value - data[i].0).abs() < 0.1, "knot {}: {} vs {}", i, value, data[i].0);
    }

    let (_, variance, _) = fit(&knots, &data, &weights, 2, 0.25).unwrap();
    assert_eq!(variance.0, 0.25);
}

#[test]
fn too_few_knots_for_order_is_rejected() {
    let knots = wrap(&[0., 1., 2., 3.]);
    let data = wrap(&[0., 1., 4., 9.]);
    let weights = wrap(&[1., 1., 1., 1.]);
    let result = fit(&knots, &data, &weights, 3, 0.0);
    assert!(matches!(result, Err(FittingError::NotEnoughKnotsForOrder)));
}

#[test]
fn short_weight_vector_is_rejected() {
    let knots = wrap(&[0., 1., 2., 3., 4., 5.]);
    let data = wrap(&[0., 1., 4., 9., 16., 25.]);
    let weights = wrap(&[1., 1., 1., 1., 1.]);
    let result = fit(&knots, &data, &weights, 3, 0.0);
    assert!(matches!(result, Err(FittingError::VectorLengthMismatch)));
}

#[test]
fn non_increasing_knots_are_rejected() {
    let knots = wrap(&[0., 1., 1., 3., 4., 5.]);
    let data = wrap(&[0., 1., 4., 9., 16., 25.]);
    let weights = wrap(&[1.; 6]);
    let result = fit(&knots, &data, &weights, 3, 0.0);
    assert!(matches!(result, Err(FittingError::KnotsNotStrictlyIncreasing)));

    let single = wrap(&[7.0]);
    assert!(matches!(
        check_increasing(&single),
        Err(FittingError::InsufficientKnots)
    ));
}

#[test]
fn support_checks_decide_exactly() {
    assert!(check_order(3, 6).is_ok());
    assert!(matches!(
        check_order(3, 5),
        Err(FittingError::NotEnoughKnotsForOrder)
    ));
    assert!(check_weights_length(&wrap(&[1., 1.]), 2).is_ok());
    assert!(matches!(
        check_weights_length(&wrap(&[1., 1.]), 3),
        Err(FittingError::VectorLengthMismatch)
    ));
    assert!(check_matrix_size(&wrap(&[1., 2.]), &wrap(&[3., 4.])).is_ok());
    assert!(matches!(
        trace_inverse(&wrap(&[1., 2., 3.]), wrap(&[1., 2., 3., 4., 5., 6.]), 1),
        Err(FittingError::MatrixMismatch)
    ));
}

#[test]
fn diagonal_band_system_solves_directly() {
    // Bandwidth zero: the band buffer is just the diagonal.
    let matrix = wrap(&[2.0, 4.0]);
    let decomposed = consume_and_decompose(matrix, 0).unwrap();
    let solution = solve_decomposed_system(&decomposed, &wrap(&[2.0, 8.0]), 0).unwrap();
    assert_eq!(solution[0].0, 1.0);
    assert_eq!(solution[1].0, 2.0);
}

#[test]
fn linear_basis_is_constant_one() {
    let knots = wrap(&[0., 1., 2.5, 3.]);
    let (tableau, norm) = create_basis(1, &knots).unwrap();
    assert_eq!(tableau.len(), 4);
    for entry in &tableau {
        assert_eq!(entry.0, 1.0);
    }
    assert_eq!(norm.0, 1.0);
}

#[test]
fn design_matrices_have_band_sizes() {
    let knots = wrap(&[0., 1., 2., 3., 4., 5., 6., 7.]);
    let weights = wrap(&[1.; 8]);
    let (tableau, _) = create_basis(2, &knots).unwrap();
    assert_eq!(tableau.len(), 8 * 3);
    let (penalty, _) = create_weighted_matrix(2, &knots, &weights).unwrap();
    assert_eq!(penalty.len(), 8 * 5);
}
