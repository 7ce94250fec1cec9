//! Input validation, training plans and prediction checks for a small
//! machine-learning package scripted through Rhai and backed by SmartCore.
//!
//! Numbers that scripts hand to the library are IEEE 754 doubles; the library
//! holds them by their bit patterns, so that every check it makes on them is
//! ordinary integer logic.

pub mod ieee;
pub mod text;
pub mod algorithm;
pub mod error;
pub mod input;
pub mod plan;
pub mod laws;

pub use algorithm::Algorithm;
pub use error::{Location, MlError};
pub use input::{Row, Scalar};
pub use plan::{
    plan_prediction, plan_training, plan_training_with_options, predictions, Fit, Model,
    PredictionPlan, TrainingPlan,
};
