//! Core engine for plotting two-variable experimental data.
//!
//! The library parses free-form observation text into a dataset of
//! measurement points with uncertainties, and fits a least-squares best-fit
//! line together with the maximum- and minimum-gradient lines consistent
//! with the error bars at the first and last points.
//!
//! Every quantity is an exact extended rational ([`value::Value`]): a ratio
//! of machine integers, a signed infinity, or an undefined value that takes
//! the place of IEEE NaN.  Division by zero and arithmetic overflow yield
//! the infinite and undefined values instead of faulting, so statistical
//! degeneracies propagate to the caller as values, never as panics.

pub mod linear_data;
pub mod num_format;
pub mod plot;
pub mod save_format;
pub mod save_options;
pub mod text;
pub mod two_var_data;
pub mod validators;
pub mod value;
