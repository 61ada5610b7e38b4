//! The persisted project-file contents.
//!
//! A project file records presentation metadata together with the raw
//! dataset text and the two default uncertainties; the engine consumes
//! only those last three.  Reading and writing the file on disk belongs
//! to the embedding application.

use vstd::prelude::*;
use crate::two_var_data::{DatasetError, TwoVarDataSet, dataset_matches, line_malformed,
    spec_split_lines};
use crate::value::Value;

verus! {

/// The contents of a saved project.
#[derive(Clone, Debug)]
pub struct PhysPlotterFile {
    pub version: String,
    pub creator: String,
    pub title: String,
    pub backend_name: String,
    pub x_label: String,
    pub y_label: String,
    pub default_x_uncertainty: Value,
    pub default_y_uncertainty: Value,
    pub dataset: String,
}

impl PhysPlotterFile {
    /// Parse this project's dataset text with its default uncertainties.
    pub fn to_dataset(&self) -> (r: Result<TwoVarDataSet, DatasetError>)
        ensures
            ({
                let lines = spec_split_lines(self.dataset@);
                &&& (r is Ok <==> forall|i: int|
                    0 <= i < lines.len() ==> !line_malformed(#[trigger] lines[i]))
                &&& (r is Ok ==> dataset_matches(
                    r->Ok_0.dataset@,
                    lines,
                    self.default_x_uncertainty@,
                    self.default_y_uncertainty@,
                ))
            }),
    {
        TwoVarDataSet::from_string(
            self.dataset.as_str(),
            self.default_x_uncertainty,
            self.default_y_uncertainty,
        )
    }
}

} // verus!
