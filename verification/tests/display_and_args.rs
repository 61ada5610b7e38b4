use phys_plotter::linear_data::Line;
use phys_plotter::plot::{Backends, BackendsFromStrError};
use phys_plotter::save_format::PhysPlotterFile;
use phys_plotter::save_options::SaveOptions;
use phys_plotter::validators::{du_validator, size_validator};
use phys_plotter::value::Value;

fn v(num: i64, den: i64) -> Value {
    Value::from_parts(num, den)
}

#[test]
fn display_suppresses_an_intercept_below_the_resolution() {
    let l = Line { gradient: v(2005, 1000), y_intercept: v(4, 1000) };
    assert_eq!(l.display_precision(2), "y = 2.00x");
}

#[test]
fn display_shows_a_positive_intercept_with_a_plus_sign() {
    let l = Line { gradient: v(2005, 1000), y_intercept: v(5, 10) };
    assert_eq!(l.display_precision(2), "y = 2.00x+0.50");
}

#[test]
fn display_shows_a_negative_intercept_with_its_sign() {
    let l = Line { gradient: v(2, 1), y_intercept: v(-5, 10) };
    assert_eq!(l.display_precision(2), "y = 2.00x-0.50");
}

#[test]
fn display_default_precision_is_six() {
    let l = Line { gradient: v(2, 1), y_intercept: v(1, 2) };
    assert_eq!(l.display(), "y = 2.000000x+0.500000");
}

#[test]
fn display_rounds_half_to_even() {
    let l = Line { gradient: v(25, 100), y_intercept: v(0, 1) };
    assert_eq!(l.display_precision(1), "y = 0.2x");
    let l2 = Line { gradient: v(35, 100), y_intercept: v(0, 1) };
    assert_eq!(l2.display_precision(1), "y = 0.4x");
}

#[test]
fn display_handles_degenerate_values() {
    let l = Line { gradient: Value::undefined(), y_intercept: Value::undefined() };
    assert_eq!(l.display_precision(2), "y = NaNx");
    let l2 = Line { gradient: Value::pos_inf(), y_intercept: Value::neg_inf() };
    assert_eq!(l2.display_precision(2), "y = infx-inf");
}

#[test]
fn display_zero_precision_shows_no_point() {
    let l = Line { gradient: v(7, 2), y_intercept: v(3, 1) };
    assert_eq!(l.display_precision(0), "y = 4x+3");
}

#[test]
fn du_validator_accepts_float_literals() {
    assert!(du_validator("-3.5").is_ok());
    assert!(du_validator("0.01").is_ok());
    assert!(du_validator("1e5").is_ok());
    assert!(du_validator("-2.5E-3").is_ok());
    assert!(du_validator(".5").is_ok());
    assert!(du_validator("1.").is_ok());
    assert!(du_validator("inf").is_ok());
    assert!(du_validator("Infinity").is_ok());
    assert!(du_validator("NaN").is_ok());
}

#[test]
fn du_validator_rejects_malformed_floats() {
    assert_eq!(du_validator("abc"), Err(String::from("invalid float literal")));
    assert!(du_validator("").is_err());
    assert!(du_validator("+").is_err());
    assert!(du_validator(".").is_err());
    assert!(du_validator("1e").is_err());
    assert!(du_validator("12.5.3").is_err());
    assert!(du_validator("1 2").is_err());
}

#[test]
fn size_validator_accepts_unsigned_sizes() {
    assert!(size_validator("800").is_ok());
    assert!(size_validator("+600").is_ok());
    assert!(size_validator("0").is_ok());
    assert!(size_validator("4294967295").is_ok());
}

#[test]
fn size_validator_rejects_bad_sizes() {
    assert_eq!(
        size_validator(""),
        Err(String::from("cannot parse integer from empty string"))
    );
    assert_eq!(
        size_validator("-1"),
        Err(String::from("invalid digit found in string"))
    );
    assert_eq!(
        size_validator("12px"),
        Err(String::from("invalid digit found in string"))
    );
    assert_eq!(
        size_validator("4294967296"),
        Err(String::from("number too large to fit in target type"))
    );
}

#[test]
fn backends_parse_case_insensitively() {
    assert_eq!(Backends::from_str("plotters"), Ok(Backends::Plotters));
    assert_eq!(Backends::from_str("Plotters"), Ok(Backends::Plotters));
    assert_eq!(Backends::from_str("GNUPLOT"), Ok(Backends::Gnuplot));
    match Backends::from_str("x11") {
        Err(BackendsFromStrError::UnknownBackend(name)) => assert_eq!(name, "x11"),
        other => panic!("unexpected result: {:?}", other),
    }
}

#[test]
fn backends_name_round_trips() {
    assert_eq!(Backends::Gnuplot.name(), "gnuplot");
    assert_eq!(Backends::Plotters.name(), "plotters");
    assert_eq!(Backends::from_str(&Backends::Plotters.name()), Ok(Backends::Plotters));
}

#[test]
fn save_options_carry_their_fields() {
    let opts = SaveOptions { path: "plot.png", width: 800, height: 600 };
    assert_eq!(opts.path, "plot.png");
    assert_eq!(opts.width, 800);
    assert_eq!(opts.height, 600);
}

#[test]
fn project_file_parses_its_own_dataset() {
    let file = PhysPlotterFile {
        version: String::from("2.0"),
        creator: String::from("someone"),
        title: String::from("Some Title"),
        backend_name: String::from("plotters"),
        x_label: String::from("x"),
        y_label: String::from("y"),
        default_x_uncertainty: v(1, 100),
        default_y_uncertainty: v(1, 100),
        dataset: String::from("1 2\n3 4"),
    };
    let ds = file.to_dataset().expect("parse");
    assert_eq!(ds.len(), 2);
    assert!(ds.get(1).x_uncertainty.same_value(&v(1, 100)));
}
