//! The errors that training and prediction report, and their messages.
use crate::algorithm::{algorithm_name, Algorithm};
use crate::text::{decimal, decimal_string};
use vstd::prelude::*;
use vstd::string::StringExecFns;

verus! {

/// Where in a script's input a value that should be a number was found.
#[derive(Clone, Copy, Debug, PartialEq, Eq, Structural)]
pub enum Location {
    /// The `alpha` entry of the options map.
    Alpha,
    /// `x[row][column]`.
    Feature(usize, usize),
    /// `y[index]`.
    Target(usize),
}

/// An error of training or prediction, found before the backend is called or
/// on what it returned.
#[derive(Clone, Debug)]
pub enum MlError {
    /// The requested model type is not one of `linear`, `lasso`, `logistic`.
    UnknownAlgorithm { name: String },
    /// Linear regression takes no options; `key` is the first one given.
    LinearOption { key: String },
    /// An option other than `alpha` was given to lasso or logistic regression.
    UnknownOption { key: String, algorithm: Algorithm },
    /// A value that should be a number is not an integer or a float.
    NotANumber { at: Location },
    /// A value that should be a number is infinite or NaN.
    NotFinite { at: Location },
    /// The `alpha` option is below zero.
    NegativeAlpha,
    /// `x` has no rows.
    NoRows,
    /// A row of `x` is not an array.
    RowNotArray { row: usize },
    /// The first row of `x` is empty.
    NoFeatures,
    /// A row of `x` is not as long as the first.
    RowWidth { row: usize, found: usize, expected: usize },
    /// `y` does not have one target per row of `x`.
    TargetCount { found: usize, expected: usize },
    /// Linear or lasso regression was given no more rows than features.
    TooFewRows { algorithm: Algorithm },
    /// A logistic regression target is not an integer.
    NotClassLabel { index: usize },
    /// A prediction matrix does not have the model's number of features.
    FeatureCount { found: usize, expected: usize },
    /// A model names a model type that prediction does not know.
    UnknownModelType { name: String },
    /// A regression prediction is infinite or NaN.
    NonFinitePrediction,
}

/// What an [`MlError`] says, with its texts as character sequences.
pub enum Fault {
    UnknownAlgorithm { name: Seq<char> },
    LinearOption { key: Seq<char> },
    UnknownOption { key: Seq<char>, algorithm: Algorithm },
    NotANumber { at: Location },
    NotFinite { at: Location },
    NegativeAlpha,
    NoRows,
    RowNotArray { row: nat },
    NoFeatures,
    RowWidth { row: nat, found: nat, expected: nat },
    TargetCount { found: nat, expected: nat },
    TooFewRows { algorithm: Algorithm },
    NotClassLabel { index: nat },
    FeatureCount { found: nat, expected: nat },
    UnknownModelType { name: Seq<char> },
    NonFinitePrediction,
}

impl View for MlError {
    type V = Fault;

    open spec fn view(&self) -> Fault {
        match self {
            MlError::UnknownAlgorithm { name } => Fault::UnknownAlgorithm { name: name@ },
            MlError::LinearOption { key } => Fault::LinearOption { key: key@ },
            MlError::UnknownOption { key, algorithm } => Fault::UnknownOption {
                key: key@,
                algorithm: *algorithm,
            },
            MlError::NotANumber { at } => Fault::NotANumber { at: *at },
            MlError::NotFinite { at } => Fault::NotFinite { at: *at },
            MlError::NegativeAlpha => Fault::NegativeAlpha,
            MlError::NoRows => Fault::NoRows,
            MlError::RowNotArray { row } => Fault::RowNotArray { row: *row as nat },
            MlError::NoFeatures => Fault::NoFeatures,
            MlError::RowWidth { row, found, expected } => Fault::RowWidth {
                row: *row as nat,
                found: *found as nat,
                expected: *expected as nat,
            },
            MlError::TargetCount { found, expected } => Fault::TargetCount {
                found: *found as nat,
                expected: *expected as nat,
            },
            MlError::TooFewRows { algorithm } => Fault::TooFewRows { algorithm: *algorithm },
            MlError::NotClassLabel { index } => Fault::NotClassLabel { index: *index as nat },
            MlError::FeatureCount { found, expected } => Fault::FeatureCount {
                found: *found as nat,
                expected: *expected as nat,
            },
            MlError::UnknownModelType { name } => Fault::UnknownModelType { name: name@ },
            MlError::NonFinitePrediction => Fault::NonFinitePrediction,
        }
    }
}

/// How a location is written in messages: `options.alpha`, `x[i][j]` or `y[i]`.
pub open spec fn location_text(at: Location) -> Seq<char> {
    match at {
        Location::Alpha => "options.alpha"@,
        Location::Feature(row, column) => "x["@ + decimal(row as nat) + "]["@ + decimal(
            column as nat,
        ) + "]"@,
        Location::Target(index) => "y["@ + decimal(index as nat) + "]"@,
    }
}

/// The message of an error.
pub open spec fn fault_message(fault: Fault) -> Seq<char> {
    match fault {
        Fault::UnknownAlgorithm { name } => name
            + " is not a recognized model type; expected linear, lasso, or logistic"@,
        Fault::LinearOption { key } => "linear does not support option '"@ + key + "'"@,
        Fault::UnknownOption { key, algorithm } => "unknown option '"@ + key + "' for "@
            + algorithm_name(algorithm) + "; supported option: alpha"@,
        Fault::NotANumber { at } => location_text(at) + " must be a number (integer or float)"@,
        Fault::NotFinite { at } => location_text(at) + " must be finite"@,
        Fault::NegativeAlpha => "options.alpha must be nonnegative"@,
        Fault::NoRows => "x must contain at least one row"@,
        Fault::RowNotArray { row } => "x["@ + decimal(row) + "] must be an array"@,
        Fault::NoFeatures => "x rows must contain at least one feature"@,
        Fault::RowWidth { row, found, expected } => "x["@ + decimal(row) + "] has "@ + decimal(
            found,
        ) + " features; expected "@ + decimal(expected),
        Fault::TargetCount { found, expected } => "y has "@ + decimal(found)
            + " targets; expected "@ + decimal(expected) + " (one per row of x)"@,
        Fault::TooFewRows { algorithm } => algorithm_name(algorithm)
            + " training requires more rows than features"@,
        Fault::NotClassLabel { index } => "y["@ + decimal(index)
            + "] must be an integer class label for logistic"@,
        Fault::FeatureCount { found, expected } => "x has "@ + decimal(found)
            + " features; model expects "@ + decimal(expected),
        Fault::UnknownModelType { name } => name + " is not a recognized model type"@,
        Fault::NonFinitePrediction => "prediction produced a non-finite value"@,
    }
}

/// Returns how `at` is written in messages.
pub fn location_string(at: Location) -> (s: String)
    ensures
        s@ == location_text(at),
{
    match at {
        Location::Alpha => String::from_str("options.alpha"),
        Location::Feature(row, column) => {
            let mut s = String::from_str("x[");
            s.append(decimal_string(row).as_str());
            s.append("][");
            s.append(decimal_string(column).as_str());
            s.append("]");
            s
        },
        Location::Target(index) => {
            let mut s = String::from_str("y[");
            s.append(decimal_string(index).as_str());
            s.append("]");
            s
        },
    }
}

impl MlError {
    /// Returns the message that scripts see for this error.
    pub fn message(&self) -> (s: String)
        ensures
            s@ == fault_message(self@),
    {
        match self {
            MlError::UnknownAlgorithm { name } => {
                let mut s = name.clone();
                s.append(" is not a recognized model type; expected linear, lasso, or logistic");
                s
            },
            MlError::LinearOption { key } => {
                let mut s = String::from_str("linear does not support option '");
                s.append(key.as_str());
                s.append("'");
                s
            },
            MlError::UnknownOption { key, algorithm } => {
                let mut s = String::from_str("unknown option '");
                s.append(key.as_str());
                s.append("' for ");
                s.append(algorithm.name().as_str());
                s.append("; supported option: alpha");
                s
            },
            MlError::NotANumber { at } => {
                let mut s = location_string(*at);
                s.append(" must be a number (integer or float)");
                s
            },
            MlError::NotFinite { at } => {
                let mut s = location_string(*at);
                s.append(" must be finite");
                s
            },
            MlError::NegativeAlpha => String::from_str("options.alpha must be nonnegative"),
            MlError::NoRows => String::from_str("x must contain at least one row"),
            MlError::RowNotArray { row } => {
                let mut s = String::from_str("x[");
                s.append(decimal_string(*row).as_str());
                s.append("] must be an array");
                s
            },
            MlError::NoFeatures => String::from_str("x rows must contain at least one feature"),
            MlError::RowWidth { row, found, expected } => {
                let mut s = String::from_str("x[");
                s.append(decimal_string(*row).as_str());
                s.append("] has ");
                s.append(decimal_string(*found).as_str());
                s.append(" features; expected ");
                s.append(decimal_string(*expected).as_str());
                s
            },
            MlError::TargetCount { found, expected } => {
                let mut s = String::from_str("y has ");
                s.append(decimal_string(*found).as_str());
                s.append(" targets; expected ");
                s.append(decimal_string(*expected).as_str());
                s.append(" (one per row of x)");
                s
            },
            MlError::TooFewRows { algorithm } => {
                let mut s = algorithm.name();
                s.append(" training requires more rows than features");
                s
            },
            MlError::NotClassLabel { index } => {
                let mut s = String::from_str("y[");
                s.append(decimal_string(*index).as_str());
                s.append("] must be an integer class label for logistic");
                s
            },
            MlError::FeatureCount { found, expected } => {
                let mut s = String::from_str("x has ");
                s.append(decimal_string(*found).as_str());
                s.append(" features; model expects ");
                s.append(decimal_string(*expected).as_str());
                s
            },
            MlError::UnknownModelType { name } => {
                let mut s = name.clone();
                s.append(" is not a recognized model type");
                s
            },
            MlError::NonFinitePrediction => String::from_str(
                "prediction produced a non-finite value",
            ),
        }
    }
}

} // verus!
