use phys_plotter::two_var_data::{ParseError, TwoVarDataPoint, TwoVarDataSet, atof};
use phys_plotter::value::Value;

fn v(num: i64, den: i64) -> Value {
    Value::from_parts(num, den)
}

#[test]
fn atof_negative_with_unit() {
    let (value, (start, end)) = atof("-3.5kg").expect("number expected");
    assert!(value.same_value(&v(-35, 10)));
    assert_eq!(start, 0);
    assert_eq!(end, 4);
}

#[test]
fn atof_no_digits() {
    assert!(atof("abc").is_none());
    assert!(atof("").is_none());
    assert!(atof("-.").is_none());
}

#[test]
fn atof_second_point_ends_the_run() {
    let (value, (start, end)) = atof("12.5.3").expect("number expected");
    assert!(value.same_value(&v(125, 10)));
    assert_eq!(start, 0);
    assert_eq!(end, 4);
}

#[test]
fn atof_plain_integer() {
    let (value, (start, end)) = atof("42").expect("number expected");
    assert!(value.same_value(&v(42, 1)));
    assert_eq!(start, 0);
    assert_eq!(end, 2);
}

#[test]
fn atof_skips_leading_text() {
    let (value, (start, end)) = atof("mass 9.81 m/s").expect("number expected");
    assert!(value.same_value(&v(981, 100)));
    assert_eq!(start, 5);
    assert_eq!(end, 9);
}

#[test]
fn atof_minus_attaches_only_before_first_digit() {
    // The minus sign is separated from the digits, so it is not part of
    // the number.
    let (value, (start, end)) = atof("- 5").expect("number expected");
    assert!(value.same_value(&v(5, 1)));
    assert_eq!(start, 2);
    assert_eq!(end, 3);
}

#[test]
fn atof_leading_dot_starts_fraction() {
    let (value, (start, end)) = atof(".5").expect("number expected");
    assert!(value.same_value(&v(5, 10)));
    assert_eq!(start, 1);
    assert_eq!(end, 2);
}

#[test]
fn atof_very_long_number_is_undefined() {
    // Twenty-five digits overflow the machine representation; the span is
    // still reported exactly.
    let (value, (start, end)) = atof("1111111111111111111111111").expect("number expected");
    assert!(value.is_undefined());
    assert_eq!(start, 0);
    assert_eq!(end, 25);
}

#[test]
fn from_line_two_fields_take_default_uncertainties() {
    let p = TwoVarDataPoint::from_line("1.5 2.5", v(1, 100), v(3, 100)).expect("parse");
    assert!(p.x_value.same_value(&v(15, 10)));
    assert!(p.x_uncertainty.same_value(&v(1, 100)));
    assert!(p.y_value.same_value(&v(25, 10)));
    assert!(p.y_uncertainty.same_value(&v(3, 100)));
}

#[test]
fn from_line_three_fields_take_explicit_y_uncertainty() {
    let p = TwoVarDataPoint::from_line("1 2 0.5", v(1, 100), v(3, 100)).expect("parse");
    assert!(p.x_value.same_value(&v(1, 1)));
    assert!(p.x_uncertainty.same_value(&v(1, 100)));
    assert!(p.y_value.same_value(&v(2, 1)));
    assert!(p.y_uncertainty.same_value(&v(5, 10)));
}

#[test]
fn from_line_four_fields_in_literal_order() {
    let p = TwoVarDataPoint::from_line("1 0.1 2 0.2", v(9, 1), v(9, 1)).expect("parse");
    assert!(p.x_value.same_value(&v(1, 1)));
    assert!(p.x_uncertainty.same_value(&v(1, 10)));
    assert!(p.y_value.same_value(&v(2, 1)));
    assert!(p.y_uncertainty.same_value(&v(2, 10)));
}

#[test]
fn from_line_blank_or_textual_line_is_empty_field() {
    assert!(matches!(
        TwoVarDataPoint::from_line("", v(0, 1), v(0, 1)),
        Err(ParseError::EmptyField)
    ));
    assert!(matches!(
        TwoVarDataPoint::from_line("no digits here", v(0, 1), v(0, 1)),
        Err(ParseError::EmptyField)
    ));
}

#[test]
fn from_line_one_or_five_fields_is_bad_fields() {
    assert!(matches!(
        TwoVarDataPoint::from_line("42", v(0, 1), v(0, 1)),
        Err(ParseError::BadFields)
    ));
    assert!(matches!(
        TwoVarDataPoint::from_line("1 2 3 4 5", v(0, 1), v(0, 1)),
        Err(ParseError::BadFields)
    ));
}

#[test]
fn from_line_units_between_fields_are_skipped() {
    let p = TwoVarDataPoint::from_line("t = 1.5 s, d = 2.5 m", v(1, 10), v(1, 10))
        .expect("parse");
    assert!(p.x_value.same_value(&v(15, 10)));
    assert!(p.y_value.same_value(&v(25, 10)));
}

#[test]
fn from_string_skips_blank_lines_and_keeps_order() {
    let text = "1 2\n\nnote: no numbers\n3 4\n";
    let ds = TwoVarDataSet::from_string(text, v(1, 100), v(1, 100)).expect("parse");
    assert_eq!(ds.len(), 2);
    let first = ds.get(0);
    let second = ds.get(1);
    assert!(first.x_value.same_value(&v(1, 1)));
    assert!(first.y_value.same_value(&v(2, 1)));
    assert!(second.x_value.same_value(&v(3, 1)));
    assert!(second.y_value.same_value(&v(4, 1)));
}

#[test]
fn from_string_reports_the_offending_line() {
    let text = "1 2\nonly 1\n3 4";
    let err = TwoVarDataSet::from_string(text, v(0, 1), v(0, 1)).expect_err("must fail");
    assert_eq!(err.line, "only 1");
}

#[test]
fn from_string_empty_text_gives_empty_dataset() {
    let ds = TwoVarDataSet::from_string("", v(0, 1), v(0, 1)).expect("parse");
    assert!(ds.is_empty());
    assert_eq!(ds.len(), 0);
}

#[test]
fn atof_two_leading_dots_keep_scanning() {
    // The first '.' arms the fraction; a second '.' before any digit is
    // ignored, so the digit after it is a fractional digit.
    let (value, (start, end)) = atof("..5").expect("number expected");
    assert!(value.same_value(&v(5, 10)));
    assert_eq!(start, 2);
    assert_eq!(end, 3);
}

#[test]
fn from_line_minus_between_numbers_starts_the_next_field() {
    let p = TwoVarDataPoint::from_line("3-5", v(0, 1), v(0, 1)).expect("parse");
    assert!(p.x_value.same_value(&v(3, 1)));
    assert!(p.y_value.same_value(&v(-5, 1)));
}
