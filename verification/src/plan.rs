//! What training and prediction decide before and after the backend fits or
//! applies a model: which model type, which numbers go to the backend, which
//! error a script sees, and the model that training hands back.
use crate::algorithm::{algorithm_name, algorithm_named, Algorithm};
use crate::error::{Fault, MlError};
use crate::ieee::{bits_are_finite, is_finite};
use crate::input::{
    all_finite, alpha_result, class_labels, labels_result, matrix, matrix_result, matrix_view,
    regression_targets, targets_result, training_alpha, Row, Scalar,
};
use vstd::prelude::*;
use vstd::string::StringExecFns;

verus! {

/// What the backend fits, with the targets and settings of the model type.
#[derive(Debug)]
pub enum Fit {
    /// Ordinary least squares on regression targets.
    Linear { targets: Vec<u64> },
    /// Lasso on regression targets; `alpha` is the L1 penalty, or `None` for the backend's default.
    Lasso { targets: Vec<u64>, alpha: Option<u64> },
    /// Logistic regression on integer class labels; `alpha` is the L2 penalty,
    /// or `None` for the backend's default.
    Logistic { labels: Vec<i64>, alpha: Option<u64> },
}

/// A training request that passed every check: the feature matrix, by the
/// bits of its doubles, its number of columns, and what to fit.
#[derive(Debug)]
pub struct TrainingPlan {
    pub rows: Vec<Vec<u64>>,
    pub features: usize,
    pub fit: Fit,
}

/// What a [`Fit`] holds.
pub enum FitView {
    Linear { targets: Seq<u64> },
    Lasso { targets: Seq<u64>, alpha: Option<u64> },
    Logistic { labels: Seq<i64>, alpha: Option<u64> },
}

/// What a [`TrainingPlan`] holds.
pub struct PlanView {
    pub rows: Seq<Seq<u64>>,
    pub features: nat,
    pub fit: FitView,
}

impl View for Fit {
    type V = FitView;

    open spec fn view(&self) -> FitView {
        match self {
            Fit::Linear { targets } => FitView::Linear { targets: targets@ },
            Fit::Lasso { targets, alpha } => FitView::Lasso { targets: targets@, alpha: *alpha },
            Fit::Logistic { labels, alpha } => FitView::Logistic { labels: labels@, alpha: *alpha },
        }
    }
}

impl View for TrainingPlan {
    type V = PlanView;

    open spec fn view(&self) -> PlanView {
        PlanView { rows: matrix_view(self.rows@), features: self.features as nat, fit: self.fit@ }
    }
}

/// The model type of a fit.
pub open spec fn fit_algorithm(fit: FitView) -> Algorithm {
    match fit {
        FitView::Linear { .. } => Algorithm::Linear,
        FitView::Lasso { .. } => Algorithm::Lasso,
        FitView::Logistic { .. } => Algorithm::Logistic,
    }
}

/// Checking a training request, in this order: the model type must be known;
/// the options must be ones it takes; `x` must be a matrix; `y` must have one
/// target per row of `x`; the targets must be finite numbers (linear, lasso)
/// or integers (logistic); and linear and lasso regression need more rows than
/// features.
pub open spec fn training_result(
    x: Seq<Row>,
    y: Seq<Scalar>,
    name: Seq<char>,
    options: Seq<(String, Scalar)>,
) -> Result<PlanView, Fault> {
    match algorithm_named(name) {
        None => Err(Fault::UnknownAlgorithm { name }),
        Some(algorithm) => match alpha_result(algorithm, options) {
            Err(f) => Err(f),
            Ok(alpha) => match matrix_result(x) {
                Err(f) => Err(f),
                Ok((rows, features)) => if y.len() != x.len() {
                    Err(Fault::TargetCount { found: y.len(), expected: x.len() })
                } else {
                    match algorithm {
                        Algorithm::Linear => match targets_result(y) {
                            Err(f) => Err(f),
                            Ok(targets) => if x.len() <= features {
                                Err(Fault::TooFewRows { algorithm })
                            } else {
                                Ok(PlanView { rows, features, fit: FitView::Linear { targets } })
                            },
                        },
                        Algorithm::Lasso => match targets_result(y) {
                            Err(f) => Err(f),
                            Ok(targets) => if x.len() <= features {
                                Err(Fault::TooFewRows { algorithm })
                            } else {
                                Ok(
                                    PlanView {
                                        rows,
                                        features,
                                        fit: FitView::Lasso { targets, alpha },
                                    },
                                )
                            },
                        },
                        Algorithm::Logistic => match labels_result(y) {
                            Err(f) => Err(f),
                            Ok(labels) => Ok(
                                PlanView { rows, features, fit: FitView::Logistic { labels, alpha } },
                            ),
                        },
                    }
                },
            },
        },
    }
}

/// The result of a check, in terms of what it holds.
pub open spec fn plan_agrees(r: Result<TrainingPlan, MlError>, s: Result<PlanView, Fault>) -> bool {
    match r {
        Ok(plan) => s == Ok::<PlanView, Fault>(plan@),
        Err(e) => s == Err::<PlanView, Fault>(e@),
    }
}

/// Checks a training request with an options map, given as its entries in the
/// map's order, and returns what the backend is to fit.
pub fn plan_training_with_options(
    x: &Vec<Row>,
    y: &Vec<Scalar>,
    algorithm: &str,
    options: &Vec<(String, Scalar)>,
) -> (r: Result<TrainingPlan, MlError>)
    ensures
        plan_agrees(r, training_result(x@, y@, algorithm@, options@)),
        r matches Ok(plan) ==> all_finite(plan@.rows),
{
    let model_type = match Algorithm::from_name(algorithm) {
        Some(model_type) => model_type,
        None => {
            return Err(MlError::UnknownAlgorithm { name: String::from_str(algorithm) });
        },
    };
    let alpha = match training_alpha(model_type, options) {
        Ok(alpha) => alpha,
        Err(e) => {
            return Err(e);
        },
    };
    let (rows, features) = match matrix(x) {
        Ok(m) => m,
        Err(e) => {
            return Err(e);
        },
    };
    if y.len() != x.len() {
        return Err(MlError::TargetCount { found: y.len(), expected: x.len() });
    }
    let fit = match model_type {
        Algorithm::Linear => {
            let targets = match regression_targets(y) {
                Ok(targets) => targets,
                Err(e) => {
                    return Err(e);
                },
            };
            if x.len() <= features {
                return Err(MlError::TooFewRows { algorithm: model_type });
            }
            Fit::Linear { targets }
        },
        Algorithm::Lasso => {
            let targets = match regression_targets(y) {
                Ok(targets) => targets,
                Err(e) => {
                    return Err(e);
                },
            };
            if x.len() <= features {
                return Err(MlError::TooFewRows { algorithm: model_type });
            }
            Fit::Lasso { targets, alpha }
        },
        Algorithm::Logistic => {
            let labels = match class_labels(y) {
                Ok(labels) => labels,
                Err(e) => {
                    return Err(e);
                },
            };
            Fit::Logistic { labels, alpha }
        },
    };
    Ok(TrainingPlan { rows, features, fit })
}

/// Checks a training request without options, which is the request with an
/// empty options map.
pub fn plan_training(x: &Vec<Row>, y: &Vec<Scalar>, algorithm: &str) -> (r: Result<
    TrainingPlan,
    MlError,
>)
    ensures
        plan_agrees(r, training_result(x@, y@, algorithm@, Seq::empty())),
        r matches Ok(plan) ==> all_finite(plan@.rows),
{
    let options: Vec<(String, Scalar)> = Vec::new();
    plan_training_with_options(x, y, algorithm, &options)
}

impl TrainingPlan {
    /// Returns the model type that this plan fits.
    pub fn algorithm(&self) -> (r: Algorithm)
        ensures
            r == fit_algorithm(self@.fit),
    {
        match &self.fit {
            Fit::Linear { .. } => Algorithm::Linear,
            Fit::Lasso { .. } => Algorithm::Lasso,
            Fit::Logistic { .. } => Algorithm::Logistic,
        }
    }
}

// ----- Models -----

/// A trained model: the backend's serialized model, the name of its model
/// type, and the number of features that it expects.
#[derive(Clone, Debug)]
pub struct Model {
    saved_model: Vec<u8>,
    model_type: String,
    features: usize,
}

/// What a [`Model`] holds.
pub struct ModelView {
    pub saved_model: Seq<u8>,
    pub model_type: Seq<char>,
    pub features: nat,
}

impl View for Model {
    type V = ModelView;

    closed spec fn view(&self) -> ModelView {
        ModelView {
            saved_model: self.saved_model@,
            model_type: self.model_type@,
            features: self.features as nat,
        }
    }
}

/// The model that training hands back for a plan and the backend's serialized model.
pub open spec fn trained_model(plan: PlanView, saved_model: Seq<u8>) -> ModelView {
    ModelView {
        saved_model,
        model_type: algorithm_name(fit_algorithm(plan.fit)),
        features: plan.features,
    }
}

impl Model {
    /// Returns the model of a plan whose fit the backend serialized as `saved_model`.
    pub fn from_training(plan: &TrainingPlan, saved_model: Vec<u8>) -> (m: Model)
        ensures
            m@ == trained_model(plan@, saved_model@),
    {
        Model { saved_model, model_type: plan.algorithm().name(), features: plan.features }
    }

    /// Returns the backend's serialized model.
    pub fn saved_model(&self) -> (r: &Vec<u8>)
        ensures
            r@ == self@.saved_model,
    {
        &self.saved_model
    }

    /// Returns the name of the model type.
    pub fn model_type(&self) -> (r: &String)
        ensures
            r@ == self@.model_type,
    {
        &self.model_type
    }

    /// Returns the number of features that the model expects.
    pub fn features(&self) -> (r: usize)
        ensures
            r == self@.features,
    {
        self.features
    }
}

impl Default for Model {
    /// An empty model: no serialized model, no model type, no features.
    fn default() -> (m: Model)
        ensures
            m@.saved_model == Seq::<u8>::empty(),
            m@.model_type == Seq::<char>::empty(),
            m@.features == 0,
    {
        Model { saved_model: Vec::new(), model_type: String::new(), features: 0 }
    }
}

// ----- Prediction -----

/// A prediction request that passed every check: the model type to apply
/// and the matrix, by the bits of its doubles.
#[derive(Debug)]
pub struct PredictionPlan {
    pub algorithm: Algorithm,
    pub rows: Vec<Vec<u64>>,
}

/// Checking a prediction request, in this order: `x` must be a matrix; it must
/// have the model's number of features; the model's type must be known.
pub open spec fn prediction_result(x: Seq<Row>, model: ModelView) -> Result<
    (Algorithm, Seq<Seq<u64>>),
    Fault,
> {
    match matrix_result(x) {
        Err(f) => Err(f),
        Ok((rows, features)) => if features != model.features {
            Err(Fault::FeatureCount { found: features, expected: model.features })
        } else {
            match algorithm_named(model.model_type) {
                None => Err(Fault::UnknownModelType { name: model.model_type }),
                Some(algorithm) => Ok((algorithm, rows)),
            }
        },
    }
}

/// Checks a prediction request and returns what the backend is to apply.
pub fn plan_prediction(x: &Vec<Row>, model: &Model) -> (r: Result<PredictionPlan, MlError>)
    ensures
        match r {
            Ok(plan) => prediction_result(x@, model@) == Ok::<(Algorithm, Seq<Seq<u64>>), Fault>(
                (plan.algorithm, matrix_view(plan.rows@)),
            ) && all_finite(matrix_view(plan.rows@)),
            Err(e) => prediction_result(x@, model@) == Err::<(Algorithm, Seq<Seq<u64>>), Fault>(
                e@,
            ),
        },
{
    let (rows, features) = match matrix(x) {
        Ok(m) => m,
        Err(e) => {
            return Err(e);
        },
    };
    if features != model.features {
        return Err(MlError::FeatureCount { found: features, expected: model.features });
    }
    match Algorithm::from_name(model.model_type.as_str()) {
        Some(algorithm) => Ok(PredictionPlan { algorithm, rows }),
        None => Err(MlError::UnknownModelType { name: model.model_type.clone() }),
    }
}

/// Accepting regression predictions: every one must be finite.
pub open spec fn predictions_result(values: Seq<u64>) -> Result<Seq<u64>, Fault> {
    if forall|i: int| 0 <= i < values.len() ==> is_finite(#[trigger] values[i]) {
        Ok(values)
    } else {
        Err(Fault::NonFinitePrediction)
    }
}

/// Accepts the regression predictions of the backend, given by the bits of
/// their doubles, if every one is finite.
pub fn predictions(values: Vec<u64>) -> (r: Result<Vec<u64>, MlError>)
    ensures
        match r {
            Ok(accepted) => predictions_result(values@) == Ok::<Seq<u64>, Fault>(accepted@),
            Err(e) => predictions_result(values@) == Err::<Seq<u64>, Fault>(e@),
        },
{
    let mut i: usize = 0;
    while i < values.len()
        invariant
            i <= values@.len(),
            forall|k: int| 0 <= k < i ==> is_finite(#[trigger] values@[k]),
        decreases values@.len() - i,
    {
        if !bits_are_finite(values[i]) {
            return Err(MlError::NonFinitePrediction);
        }
        i = i + 1;
    }
    Ok(values)
}

} // verus!
