use phys_plotter::linear_data::{Line, Point};
use phys_plotter::two_var_data::{TwoVarDataPoint, TwoVarDataSet};
use phys_plotter::value::Value;

fn v(num: i64, den: i64) -> Value {
    Value::from_parts(num, den)
}

fn point(x: Value, ux: Value, y: Value, uy: Value) -> TwoVarDataPoint {
    TwoVarDataPoint { x_value: x, x_uncertainty: ux, y_value: y, y_uncertainty: uy }
}

fn dataset(points: Vec<TwoVarDataPoint>) -> TwoVarDataSet {
    TwoVarDataSet { dataset: points }
}

#[test]
fn best_fit_on_a_perfect_line() {
    let ds = dataset(vec![
        point(v(1, 1), v(0, 1), v(2, 1), v(0, 1)),
        point(v(2, 1), v(0, 1), v(4, 1), v(0, 1)),
        point(v(3, 1), v(0, 1), v(6, 1), v(0, 1)),
    ]);
    let fit = ds.line_best_fit();
    assert!(fit.gradient.same_value(&v(2, 1)));
    assert!(fit.y_intercept.same_value(&v(0, 1)));
}

#[test]
fn best_fit_with_identical_x_degenerates() {
    let ds = dataset(vec![
        point(v(1, 1), v(0, 1), v(2, 1), v(0, 1)),
        point(v(1, 1), v(0, 1), v(4, 1), v(0, 1)),
    ]);
    let fit = ds.line_best_fit();
    // Zero variance over zero covariance: the quotient is undefined.
    assert!(fit.gradient.is_undefined());
}

#[test]
fn best_fit_on_empty_dataset_is_undefined_not_a_crash() {
    let ds = dataset(vec![]);
    let fit = ds.line_best_fit();
    assert!(fit.gradient.is_undefined());
    assert!(fit.y_intercept.is_undefined());
}

#[test]
fn means_are_exact() {
    let ds = dataset(vec![
        point(v(1, 1), v(0, 1), v(10, 1), v(0, 1)),
        point(v(2, 1), v(0, 1), v(20, 1), v(0, 1)),
        point(v(3, 1), v(0, 1), v(30, 1), v(0, 1)),
    ]);
    assert!(ds.mean_x().same_value(&v(2, 1)));
    assert!(ds.mean_y().same_value(&v(20, 1)));
}

#[test]
fn mean_of_empty_dataset_is_undefined() {
    let ds = dataset(vec![]);
    assert!(ds.mean_x().is_undefined());
    assert!(ds.mean_y().is_undefined());
}

#[test]
fn extremes_with_uncertainty() {
    let ds = dataset(vec![
        point(v(1, 1), v(5, 10), v(0, 1), v(0, 1)),
        point(v(10, 1), v(0, 1), v(0, 1), v(0, 1)),
    ]);
    assert!(ds.max_x(true).same_value(&v(10, 1)));
    assert!(ds.min_x(true).same_value(&v(5, 10)));
    assert!(ds.max_x(false).same_value(&v(10, 1)));
    assert!(ds.min_x(false).same_value(&v(1, 1)));
}

#[test]
fn extremes_on_empty_dataset_fall_back_to_zero() {
    let ds = dataset(vec![]);
    assert!(ds.max_x(true).same_value(&v(0, 1)));
    assert!(ds.min_x(true).same_value(&v(0, 1)));
    assert!(ds.max_y(false).same_value(&v(0, 1)));
    assert!(ds.min_y(false).same_value(&v(0, 1)));
}

#[test]
fn undefined_values_never_win_an_extremum_search() {
    let ds = dataset(vec![
        point(Value::undefined(), v(0, 1), v(1, 1), v(0, 1)),
        point(v(3, 1), v(0, 1), Value::undefined(), v(0, 1)),
        point(v(2, 1), v(0, 1), v(5, 1), v(0, 1)),
    ]);
    assert!(ds.max_x(false).same_value(&v(3, 1)));
    assert!(ds.min_x(false).same_value(&v(2, 1)));
    assert!(ds.max_y(false).same_value(&v(5, 1)));
    assert!(ds.min_y(false).same_value(&v(1, 1)));
}

#[test]
fn envelope_lines_of_a_two_point_dataset() {
    let ds = dataset(vec![
        point(v(0, 1), v(1, 1), v(0, 1), v(1, 1)),
        point(v(10, 1), v(1, 1), v(10, 1), v(1, 1)),
    ]);
    let max = ds.line_max_grad().expect("line expected");
    let min = ds.line_min_grad().expect("line expected");
    // Steepest: from (1, -1) to (9, 11); shallowest: from (-1, 1) to (11, 9).
    assert!(max.gradient.same_value(&v(3, 2)));
    assert!(min.gradient.same_value(&v(2, 3)));
    // Intercepts read off at the last corner: 11 - (3/2) * 9 and 9 - (2/3) * 11.
    assert!(max.y_intercept.same_value(&v(-5, 2)));
    assert!(min.y_intercept.same_value(&v(5, 3)));
}

#[test]
fn envelope_on_empty_dataset_is_absent() {
    let ds = dataset(vec![]);
    assert!(ds.line_max_grad().is_none());
    assert!(ds.line_min_grad().is_none());
}

#[test]
fn envelope_single_point_avoids_undefined_gradient() {
    let ds = dataset(vec![point(v(1, 1), v(5, 10), v(2, 1), v(5, 10))]);
    let max = ds.line_max_grad().expect("line expected");
    let min = ds.line_min_grad().expect("line expected");
    // Corners with equal x give infinite candidates and coincident corners
    // give undefined ones, but defined candidates exist, so the undefined
    // gradient is never the result.
    assert!(!max.gradient.is_undefined());
    assert!(!min.gradient.is_undefined());
}

#[test]
fn envelope_single_point_zero_x_uncertainty_gives_infinite_extremes() {
    let ds = dataset(vec![point(v(1, 1), v(0, 1), v(2, 1), v(1, 1))]);
    let max = ds.line_max_grad().expect("line expected");
    let min = ds.line_min_grad().expect("line expected");
    // All candidates share the same x, so the steepest is upward vertical
    // and the shallowest downward vertical.
    assert!(max.gradient.is_pos_inf());
    assert!(min.gradient.is_neg_inf());
}

#[test]
fn line_from_points_and_evaluation() {
    let l = Line::from_points(
        Point { x: v(0, 1), y: v(1, 1) },
        Point { x: v(2, 1), y: v(5, 1) },
    );
    assert!(l.gradient.same_value(&v(2, 1)));
    assert!(l.y_intercept.same_value(&v(1, 1)));
    assert!(l.y(v(3, 1)).same_value(&v(7, 1)));
}

#[test]
fn line_from_coincident_x_has_infinite_gradient() {
    let l = Line::from_points(
        Point { x: v(1, 1), y: v(1, 1) },
        Point { x: v(1, 1), y: v(5, 1) },
    );
    assert!(l.gradient.is_pos_inf());
}

#[test]
fn getters_return_columns_in_order() {
    let ds = dataset(vec![
        point(v(1, 1), v(2, 1), v(3, 1), v(4, 1)),
        point(v(5, 1), v(6, 1), v(7, 1), v(8, 1)),
    ]);
    let xs = ds.get_x_value();
    let uxs = ds.get_x_uncertainty();
    let ys = ds.get_y_value();
    let uys = ds.get_y_uncertainty();
    assert_eq!(xs.len(), 2);
    assert!(xs[0].same_value(&v(1, 1)) && xs[1].same_value(&v(5, 1)));
    assert!(uxs[0].same_value(&v(2, 1)) && uxs[1].same_value(&v(6, 1)));
    assert!(ys[0].same_value(&v(3, 1)) && ys[1].same_value(&v(7, 1)));
    assert!(uys[0].same_value(&v(4, 1)) && uys[1].same_value(&v(8, 1)));
}

#[test]
fn value_arithmetic_follows_ieee_special_rules() {
    let inf = Value::pos_inf();
    let ninf = Value::neg_inf();
    let one = v(1, 1);
    let zero = Value::zero();
    assert!(inf.add(ninf).is_undefined());
    assert!(inf.add(one).is_pos_inf());
    assert!(zero.mul(inf).is_undefined());
    assert!(one.div(zero).is_pos_inf());
    assert!(one.neg().div(zero).is_neg_inf());
    assert!(zero.div(zero).is_undefined());
    assert!(one.div(inf).same_value(&zero));
    assert!(Value::undefined().add(one).is_undefined());
}

#[test]
fn value_overflow_collapses_to_undefined() {
    let big = Value::from_int(i64::MAX);
    assert!(big.mul(big).is_undefined());
    assert!(big.add(Value::from_int(1)).is_undefined());
}

#[test]
fn parse_fit_and_display_end_to_end() {
    let text = "1 2\n2 4\n3 6";
    let ds = TwoVarDataSet::from_string(text, v(1, 100), v(1, 100)).expect("parse");
    let fit = ds.line_best_fit();
    // A perfect line through the origin: the intercept term is suppressed.
    assert_eq!(fit.display(), "y = 2.000000x");
}
